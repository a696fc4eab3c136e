use wl_lock::events::{Modifiers, UiEvent, UiKey};
use wl_lock::state::seat::{is_control, keymap_text, keysym_key, printable, xkb_keycode, KeyboardEvent, SeatEvent};
use wl_lock::state::State;
use wl_lock::SeatCapabilities;

/// Two outputs (names 10 and 11, surfaces 100 and 101) and a seat with a
/// keyboard, input set up.
fn locked_state() -> State {
    let mut s = State::default();
    s.registry_global(10, &"wl_output".to_string(), 4);
    s.registry_global(11, &"wl_output".to_string(), 4);
    s.registry_global(20, &"wl_seat".to_string(), 9);
    s.attach_surface(10, 100);
    s.attach_surface(11, 101);
    s.seat_event(20, SeatEvent::Capabilities(SeatCapabilities::Value(3)));
    let keyboards = s.init_input();
    assert_eq!(keyboards, vec![20]);
    s
}

#[test]
fn seat_name_and_capabilities() {
    let mut s = State::default();
    s.registry_global(20, &"wl_seat".to_string(), 9);
    s.seat_event(20, SeatEvent::Name("seat0".to_string()));
    s.seat_event(20, SeatEvent::Capabilities(SeatCapabilities::Value(1)));
    s.seat_event(20, SeatEvent::Other);
    assert_eq!(s.seats[&20].name.as_deref(), Some("seat0"));
    assert_eq!(s.seats[&20].capabilities, Some(SeatCapabilities::Value(1)));
}

#[test]
fn init_input_without_keyboard() {
    let mut s = State::default();
    s.registry_global(20, &"wl_seat".to_string(), 9);
    s.registry_global(21, &"wl_seat".to_string(), 9);
    s.seat_event(20, SeatEvent::Capabilities(SeatCapabilities::Value(1)));
    assert_eq!(s.init_input(), Vec::<u32>::new());
    assert!(s.input.get().keyboard.is_none());
    assert!(s.input.get().pointer.is_none());
}

#[test]
fn init_input_takes_every_keyboard() {
    let mut s = State::default();
    s.registry_global(20, &"wl_seat".to_string(), 9);
    s.registry_global(21, &"wl_seat".to_string(), 9);
    s.registry_global(22, &"wl_seat".to_string(), 9);
    s.seat_event(20, SeatEvent::Capabilities(SeatCapabilities::Value(2)));
    s.seat_event(21, SeatEvent::Capabilities(SeatCapabilities::Value(4)));
    s.seat_event(22, SeatEvent::Capabilities(SeatCapabilities::Value(7)));
    let mut keyboards = s.init_input();
    keyboards.sort();
    assert_eq!(keyboards, vec![20, 22]);
    let kb = s.input.get().keyboard.unwrap();
    assert_eq!(kb.focused_output, None);
    assert!(!kb.has_keymap);
    assert_eq!(kb.key_mods, Modifiers::none());
}

#[test]
fn keymap_marks_keyboard() {
    let mut s = locked_state();
    s.keyboard_event(KeyboardEvent::Keymap);
    assert!(s.input.get().keyboard.unwrap().has_keymap);
    assert!(s.new_events);
}

#[test]
fn enter_focuses_output() {
    let mut s = locked_state();
    s.keyboard_event(KeyboardEvent::Enter { surface: 101 });
    assert_eq!(s.key_focus(), Some(11));
    assert_eq!(s.outputs[&11].events_to_flush, vec![UiEvent::WindowFocused(true)]);
    assert!(s.outputs[&10].events_to_flush.is_empty());
    assert!(s.new_events);
    s.keyboard_event(KeyboardEvent::Leave { surface: 101 });
    assert_eq!(s.key_focus(), None);
    assert_eq!(s.outputs[&11].events_to_flush, vec![UiEvent::WindowFocused(true), UiEvent::WindowFocused(false)]);
}

#[test]
fn key_press_types_text() {
    let mut s = locked_state();
    s.keyboard_event(KeyboardEvent::Enter { surface: 100 });
    s.key_event(true, 0x61, "a".to_string());
    s.key_event(false, 0x61, String::new());
    assert_eq!(
        s.outputs[&10].events_to_flush,
        vec![UiEvent::WindowFocused(true), UiEvent::Text("a".to_string())]
    );
}

#[test]
fn special_keys_become_key_events() {
    let mut s = locked_state();
    s.keyboard_event(KeyboardEvent::Enter { surface: 100 });
    s.take_ui_events(10);
    let m = Modifiers::none();
    s.key_event(true, 0xff08, "\u{8}".to_string());
    s.key_event(true, 0xff0d, "\r".to_string());
    s.key_event(false, 0xff8d, String::new());
    s.key_event(true, 0xff1b, "\u{1b}".to_string());
    assert_eq!(
        s.outputs[&10].events_to_flush,
        vec![
            UiEvent::Key { key: UiKey::Backspace, pressed: true, modifiers: m },
            UiEvent::Key { key: UiKey::Enter, pressed: true, modifiers: m },
            UiEvent::Key { key: UiKey::Enter, pressed: false, modifiers: m },
            UiEvent::Key { key: UiKey::Escape, pressed: true, modifiers: m },
        ]
    );
}

#[test]
fn modifiers_and_repeat_info_only_mark_input() {
    let mut s = locked_state();
    s.keyboard_event(KeyboardEvent::Modifiers);
    assert!(s.new_events);
    let mut t = locked_state();
    t.keyboard_event(KeyboardEvent::RepeatInfo);
    assert!(t.new_events);
    assert!(t.outputs.values().all(|o| o.events_to_flush.is_empty()));
}

#[test]
fn keysyms_of_known_keys() {
    assert_eq!(keysym_key(0xff08), Some(UiKey::Backspace));
    assert_eq!(keysym_key(0xff0d), Some(UiKey::Enter));
    assert_eq!(keysym_key(0xff8d), Some(UiKey::Enter));
    assert_eq!(keysym_key(0xff1b), Some(UiKey::Escape));
    assert_eq!(keysym_key(0x61), None);
}

#[test]
fn keycode_offset() {
    assert_eq!(xkb_keycode(1), 9);
    assert_eq!(xkb_keycode(u32::MAX - 8), u32::MAX);
}

#[test]
fn control_characters() {
    assert!(is_control('\u{0}'));
    assert!(is_control('\u{1f}'));
    assert!(!is_control(' '));
    assert!(is_control('\u{7f}'));
    assert!(is_control('\u{9f}'));
    assert!(!is_control('\u{a0}'));
    for c in ['a', 'é', '\n', '\u{85}', '€'] {
        assert_eq!(is_control(c), c.is_control());
    }
}

#[test]
fn printable_text() {
    assert!(!printable(""));
    assert!(!printable("\u{1b}\u{7f}"));
    assert!(printable("\u{1b}x"));
    assert!(printable("é"));
}

#[test]
fn keymap_text_drops_terminator() {
    assert_eq!(keymap_text(b"xkb_keymap {}\0"), Some("xkb_keymap {}".to_string()));
    assert_eq!(keymap_text(b"\0"), Some(String::new()));
    assert_eq!(keymap_text("caf\u{e9}\0".as_bytes()), Some("caf\u{e9}".to_string()));
    assert_eq!(keymap_text(&[0xff, 0xfe, 0]), None);
}

#[test]
fn key_without_focus_changes_nothing() {
    let mut s = locked_state();
    s.key_event(true, 0x61, "a".to_string());
    assert!(!s.new_events);
    assert!(s.outputs.values().all(|o| o.events_to_flush.is_empty()));
    s.keyboard_event(KeyboardEvent::Enter { surface: 100 });
    s.keyboard_event(KeyboardEvent::Leave { surface: 100 });
    assert_eq!(s.outputs[&10].events_to_flush, vec![UiEvent::WindowFocused(true), UiEvent::WindowFocused(false)]);
    s.new_events = false;
    s.key_event(true, 0x62, "b".to_string());
    assert!(!s.new_events);
    assert_eq!(s.outputs[&10].events_to_flush, vec![UiEvent::WindowFocused(true), UiEvent::WindowFocused(false)]);
}

#[test]
fn key_without_keyboard_changes_nothing() {
    let mut s = State::default();
    s.registry_global(10, &"wl_output".to_string(), 4);
    s.attach_surface(10, 100);
    assert!(s.init_input().is_empty());
    assert_eq!(s.key_focus(), None);
    s.key_event(true, 0x61, "a".to_string());
    assert!(!s.new_events);
    assert!(s.outputs[&10].events_to_flush.is_empty());
}

#[test]
fn ui_events_are_taken_once() {
    let mut s = locked_state();
    s.keyboard_event(KeyboardEvent::Enter { surface: 101 });
    s.key_event(true, 0x61, "a".to_string());
    assert_eq!(
        s.take_ui_events(11),
        vec![UiEvent::WindowFocused(true), UiEvent::Text("a".to_string())]
    );
    assert!(s.take_ui_events(11).is_empty());
    assert!(s.take_ui_events(10).is_empty());
}

#[test]
fn keymap_event_takes_utf8_text() {
    let mut s = locked_state();
    s.new_events = false;
    assert_eq!(s.keymap_event(b"xkb_keymap {}\0"), Some("xkb_keymap {}".to_string()));
    assert!(s.input.get().keyboard.unwrap().has_keymap);
    assert!(s.new_events);
}

#[test]
fn keymap_event_refuses_garbage() {
    let mut s = locked_state();
    s.new_events = false;
    assert_eq!(s.keymap_event(&[0xc3, 0x28, 0]), None);
    assert!(!s.input.get().keyboard.unwrap().has_keymap);
    assert!(!s.new_events);
}
