use wl_lock::events::{Modifiers, PointerButton, Position, UiEvent, WheelDelta, WheelPhase, WheelUnit};
use wl_lock::state::seat::{
    axis_sums, pointer_button, wheel_phase, AxisEvent, AxisSource, AxisValueKind, PlainPointerEvent, PointerEvent,
    SeatEvent, WireAxis, WirePointerEvent,
};
use wl_lock::state::{Pointer, State};
use wl_lock::SeatCapabilities;

const V: WireAxis = WireAxis::VerticalScroll;
const H: WireAxis = WireAxis::HorizontalScroll;

/// Two outputs (names 10 and 11, surfaces 100 and 101), a keyboard and a
/// pointer.
fn pointer_state() -> State {
    let mut s = State::default();
    s.registry_global(10, &"wl_output".to_string(), 4);
    s.registry_global(11, &"wl_output".to_string(), 4);
    s.registry_global(20, &"wl_seat".to_string(), 9);
    s.attach_surface(10, 100);
    s.attach_surface(11, 101);
    s.seat_event(20, SeatEvent::Capabilities(SeatCapabilities::Value(3)));
    s.init_input();
    s.input.get_mut().pointer =
        Some(Pointer { focused_output: None, last_focused_output_in_events: None, last_pointer_pos: None });
    s
}

fn plain(e: PlainPointerEvent) -> WirePointerEvent {
    WirePointerEvent::Plain(e)
}

fn axis(a: AxisEvent) -> WirePointerEvent {
    WirePointerEvent::Axis(a)
}

fn enter(s: &mut State, surface: u32) {
    s.pointer_event(plain(PlainPointerEvent::Enter { surface, x: 0, y: 0 }));
}

#[test]
fn enter_motion_button_in_one_frame() {
    let mut s = pointer_state();
    enter(&mut s, 101);
    s.pointer_event(plain(PlainPointerEvent::Motion { x: 512, y: 256 }));
    s.pointer_event(plain(PlainPointerEvent::Button { button: 272, pressed: true }));
    assert_eq!(s.outputs[&11].pointer_events.len(), 3);
    assert!(s.outputs[&11].events_to_flush.is_empty());
    assert!(!s.new_events);
    s.pointer_event(WirePointerEvent::Frame);
    let pos = Position { x: 512, y: 256 };
    assert_eq!(
        s.outputs[&11].events_to_flush,
        vec![
            UiEvent::WindowFocused(true),
            UiEvent::PointerMoved(pos),
            UiEvent::PointerButton { pos, button: PointerButton::Primary, pressed: true, modifiers: Modifiers::none() },
        ]
    );
    assert!(s.outputs[&11].pointer_events.is_empty());
    let p = s.input.get().pointer.unwrap();
    assert_eq!(p.focused_output, Some(11));
    assert_eq!(p.last_focused_output_in_events, Some(11));
    assert_eq!(p.last_pointer_pos, Some(pos));
    assert!(s.new_events);
}

#[test]
fn leave_clears_focus() {
    let mut s = pointer_state();
    enter(&mut s, 100);
    s.pointer_event(WirePointerEvent::Frame);
    s.pointer_event(plain(PlainPointerEvent::Leave { surface: 100 }));
    assert_eq!(s.input.get().pointer.unwrap().last_focused_output_in_events, None);
    s.pointer_event(WirePointerEvent::Frame);
    assert_eq!(s.outputs[&10].events_to_flush, vec![UiEvent::WindowFocused(true), UiEvent::WindowFocused(false)]);
    assert_eq!(s.input.get().pointer.unwrap().focused_output, None);
}

#[test]
fn button_before_motion_is_dropped() {
    let mut s = pointer_state();
    enter(&mut s, 100);
    s.pointer_event(plain(PlainPointerEvent::Button { button: 273, pressed: true }));
    s.pointer_event(WirePointerEvent::Frame);
    assert_eq!(s.outputs[&10].events_to_flush, vec![UiEvent::WindowFocused(true)]);
}

#[test]
fn unknown_button_cuts_the_frame_short() {
    let mut s = pointer_state();
    enter(&mut s, 100);
    s.pointer_event(plain(PlainPointerEvent::Motion { x: 1, y: 2 }));
    s.pointer_event(WirePointerEvent::Frame);
    s.new_events = false;
    s.pointer_event(plain(PlainPointerEvent::Button { button: 999, pressed: true }));
    s.pointer_event(plain(PlainPointerEvent::Motion { x: 3, y: 4 }));
    s.pointer_event(WirePointerEvent::Frame);
    // the motion after the unknown button is dropped, no new input is marked
    assert_eq!(s.outputs[&10].events_to_flush.len(), 2);
    assert!(s.outputs[&10].pointer_events.is_empty());
    assert!(!s.new_events);
    assert_eq!(s.input.get().pointer.unwrap().last_pointer_pos, Some(Position { x: 1, y: 2 }));
}

#[test]
fn all_buttons() {
    assert_eq!(pointer_button(272), Some(PointerButton::Primary));
    assert_eq!(pointer_button(273), Some(PointerButton::Secondary));
    assert_eq!(pointer_button(274), Some(PointerButton::Middle));
    assert_eq!(pointer_button(275), Some(PointerButton::Extra1));
    assert_eq!(pointer_button(276), Some(PointerButton::Extra2));
    assert_eq!(pointer_button(277), None);
    assert_eq!(pointer_button(271), None);
}

#[test]
fn scroll_events_gather_into_one() {
    let mut s = pointer_state();
    enter(&mut s, 100);
    s.pointer_event(axis(AxisEvent::AxisSource { source: Some(AxisSource::Wheel) }));
    s.pointer_event(axis(AxisEvent::AxisValue120 { axis: V, value120: 120 }));
    s.pointer_event(axis(AxisEvent::Axis { axis: V, value: 15 * 256 }));
    assert_eq!(s.outputs[&10].pointer_events.len(), 2);
    assert_eq!(s.outputs[&10].last_pointer_axis_event, Some(1));
    match &s.outputs[&10].pointer_events[1] {
        PointerEvent::Axis(f) => {
            assert_eq!(f.ordered_ev.len(), 3);
            assert_eq!(f.available_modes, 0b011);
            assert_eq!(f.source, Some(AxisSource::Wheel));
            assert_eq!(f.is_stop, None);
        },
        _ => panic!("expected a scroll"),
    }
}

#[test]
fn wheel_prefers_high_resolution_values() {
    let mut s = pointer_state();
    enter(&mut s, 100);
    s.pointer_event(WirePointerEvent::Frame);
    s.pointer_event(axis(AxisEvent::AxisSource { source: Some(AxisSource::Wheel) }));
    s.pointer_event(axis(AxisEvent::AxisValue120 { axis: V, value120: 60 }));
    s.pointer_event(axis(AxisEvent::AxisValue120 { axis: V, value120: 120 }));
    s.pointer_event(axis(AxisEvent::AxisDiscrete { axis: V, discrete: 1 }));
    s.pointer_event(axis(AxisEvent::Axis { axis: V, value: 10 * 256 }));
    s.pointer_event(WirePointerEvent::Frame);
    assert_eq!(
        s.outputs[&10].events_to_flush[1],
        UiEvent::MouseWheel {
            unit: WheelUnit::Line,
            delta: WheelDelta { x: 0, y: 180, divisor: 120 },
            phase: WheelPhase::Move,
            modifiers: Modifiers::none(),
        }
    );
    assert_eq!(s.outputs[&10].last_pointer_axis_event, None);
}

#[test]
fn wheel_discrete_then_continuous() {
    let mut s = pointer_state();
    enter(&mut s, 100);
    s.pointer_event(WirePointerEvent::Frame);
    s.pointer_event(axis(AxisEvent::AxisSource { source: Some(AxisSource::Wheel) }));
    s.pointer_event(axis(AxisEvent::AxisDiscrete { axis: H, discrete: -2 }));
    s.pointer_event(WirePointerEvent::Frame);
    s.pointer_event(axis(AxisEvent::AxisSource { source: Some(AxisSource::Wheel) }));
    s.pointer_event(axis(AxisEvent::Axis { axis: V, value: 30 * 256 }));
    s.pointer_event(WirePointerEvent::Frame);
    let ev = &s.outputs[&10].events_to_flush;
    assert_eq!(ev.len(), 3);
    assert!(matches!(ev[1], UiEvent::MouseWheel { delta: WheelDelta { x: -2, y: 0, divisor: 1 }, .. }));
    // 30 pixels at 15 pixels a line: 7680 / 3840 = 2 lines
    assert!(matches!(ev[2], UiEvent::MouseWheel { delta: WheelDelta { x: 0, y: 7680, divisor: 3840 }, .. }));
}

#[test]
fn finger_scroll_in_pixels_and_stop() {
    let mut s = pointer_state();
    enter(&mut s, 100);
    s.pointer_event(WirePointerEvent::Frame);
    s.pointer_event(axis(AxisEvent::AxisSource { source: Some(AxisSource::Finger) }));
    s.pointer_event(axis(AxisEvent::Axis { axis: H, value: 512 }));
    s.pointer_event(axis(AxisEvent::Axis { axis: V, value: -256 }));
    s.pointer_event(WirePointerEvent::Frame);
    assert_eq!(
        s.outputs[&10].events_to_flush[1],
        UiEvent::MouseWheel {
            unit: WheelUnit::Point,
            delta: WheelDelta { x: 512, y: -256, divisor: 256 },
            phase: WheelPhase::Move,
            modifiers: Modifiers::none(),
        }
    );
    // a finger scroll leaves the remembered slot in place
    assert_eq!(s.outputs[&10].last_pointer_axis_event, Some(0));
}

#[test]
fn scroll_without_source_and_with_stop() {
    let mut s = pointer_state();
    enter(&mut s, 100);
    s.pointer_event(WirePointerEvent::Frame);
    s.pointer_event(axis(AxisEvent::Axis { axis: H, value: 256 }));
    s.pointer_event(axis(AxisEvent::AxisStop { axis: V }));
    s.pointer_event(WirePointerEvent::Frame);
    assert!(matches!(
        s.outputs[&10].events_to_flush[1],
        UiEvent::MouseWheel { unit: WheelUnit::Point, phase: WheelPhase::End, .. }
    ));
}

#[test]
fn wheel_tilt_is_ignored() {
    let mut s = pointer_state();
    enter(&mut s, 100);
    s.pointer_event(WirePointerEvent::Frame);
    s.pointer_event(axis(AxisEvent::AxisSource { source: Some(AxisSource::WheelTilt) }));
    s.pointer_event(axis(AxisEvent::AxisDiscrete { axis: H, discrete: 1 }));
    s.pointer_event(WirePointerEvent::Frame);
    assert_eq!(s.outputs[&10].events_to_flush.len(), 1);
    assert!(s.outputs[&10].pointer_events.is_empty());
}

#[test]
fn phases() {
    let moving = WheelDelta { x: 1, y: 1, divisor: 1 };
    let flat = WheelDelta { x: 1, y: 0, divisor: 1 };
    assert_eq!(wheel_phase(None, moving), WheelPhase::Move);
    assert_eq!(wheel_phase(None, flat), WheelPhase::Move);
    assert_eq!(wheel_phase(Some(false), moving), WheelPhase::Move);
    assert_eq!(wheel_phase(Some(false), flat), WheelPhase::End);
    assert_eq!(wheel_phase(Some(true), moving), WheelPhase::End);
}

#[test]
fn stop_twice_marks_end() {
    let mut s = pointer_state();
    enter(&mut s, 100);
    s.pointer_event(axis(AxisEvent::AxisStop { axis: V }));
    s.pointer_event(axis(AxisEvent::AxisStop { axis: H }));
    s.pointer_event(axis(AxisEvent::AxisStop { axis: H }));
    match &s.outputs[&10].pointer_events[1] {
        PointerEvent::Axis(f) => assert_eq!(f.is_stop, Some(true)),
        _ => panic!("expected a scroll"),
    }
}

#[test]
fn sums_do_not_overflow() {
    let evs = vec![
        AxisEvent::AxisValue120 { axis: V, value120: i32::MAX },
        AxisEvent::AxisValue120 { axis: V, value120: i32::MAX },
        AxisEvent::AxisValue120 { axis: H, value120: i32::MIN },
        AxisEvent::AxisValue120 { axis: WireAxis::Unknown(7), value120: 5 },
        AxisEvent::AxisDiscrete { axis: V, discrete: 3 },
    ];
    assert_eq!(axis_sums(&evs, AxisValueKind::Value120), (i32::MIN as i128, 2 * i32::MAX as i128));
    assert_eq!(axis_sums(&evs, AxisValueKind::Discrete), (0, 3));
    assert_eq!(axis_sums(&evs, AxisValueKind::Continuous), (0, 0));
}

#[test]
fn events_stay_with_their_output() {
    let mut s = pointer_state();
    enter(&mut s, 101);
    s.pointer_event(plain(PlainPointerEvent::Motion { x: 5, y: 6 }));
    s.pointer_event(WirePointerEvent::Frame);
    assert!(s.outputs[&10].events_to_flush.is_empty());
    assert_eq!(s.outputs[&11].events_to_flush.len(), 2);
}
