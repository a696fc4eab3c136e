use vstd::prelude::*;
use vstd::string::StringSliceAdditionalSpecFns;
use vstd::utf8::{encode_utf8, valid_utf8};

use crate::events::{no_modifiers, Modifiers, PointerButton, Position, UiEvent, UiKey, WheelDelta, WheelPhase, WheelUnit};
use crate::state::{has_output, has_seat, is_output_order, outputs_named, seat_has_keyboard, Input, Kb, Pointer, State, StateView};
use crate::{Output, OutputView, Seat, SeatCapabilities, CAPABILITY_KEYBOARD};

verus! {

broadcast use vstd::std_specs::hash::group_hash_axioms;

/// An axis of a scroll event: one of the two that the protocol defines, or a
/// value that it does not define.
#[derive(Clone, Copy, PartialEq, Eq, Debug, Structural)]
pub enum WireAxis {
    VerticalScroll,
    HorizontalScroll,
    Unknown(u32),
}

/// What drives a scroll.
#[derive(Clone, Copy, PartialEq, Eq, Debug, Structural)]
pub enum AxisSource {
    Wheel,
    Finger,
    Continuous,
    WheelTilt,
}

/// The scroll events of the pointer protocol. `value` is in 1/256 of a
/// pixel; a source the protocol does not define is `None`.
#[derive(Clone, Copy, PartialEq, Eq, Debug, Structural)]
pub enum AxisEvent {
    Axis { axis: WireAxis, value: i32 },
    AxisDiscrete { axis: WireAxis, discrete: i32 },
    AxisValue120 { axis: WireAxis, value120: i32 },
    AxisStop { axis: WireAxis },
    AxisSource { source: Option<AxisSource> },
    AxisRelativeDirection { axis: WireAxis, direction: u32 },
}

/// The pointer events that are handed on one by one; positions are in 1/256
/// of a pixel, `surface` is the protocol id of the surface.
#[derive(Clone, Copy, PartialEq, Eq, Debug, Structural)]
pub enum PlainPointerEvent {
    Enter { surface: u32, x: i32, y: i32 },
    Leave { surface: u32 },
    Motion { x: i32, y: i32 },
    Button { button: u32, pressed: bool },
}

/// A pointer event as the compositor sends it.
#[derive(Clone, Copy, PartialEq, Eq, Debug, Structural)]
pub enum WirePointerEvent {
    Plain(PlainPointerEvent),
    Axis(AxisEvent),
    Frame,
}

/// The scroll events of one pointer frame, gathered into one scroll.
///
/// Bit 0 of `available_modes` marks a continuous value, bit 1 a high
/// resolution wheel value, bit 2 a discrete wheel step.
pub struct AxisFrame {
    pub ordered_ev: Vec<AxisEvent>,
    pub source: Option<AxisSource>,
    pub available_modes: u8,
    pub is_stop: Option<bool>,
}

pub struct AxisFrameView {
    pub ordered_ev: Seq<AxisEvent>,
    pub source: Option<AxisSource>,
    pub available_modes: u8,
    pub is_stop: Option<bool>,
}

impl View for AxisFrame {
    type V = AxisFrameView;

    open spec fn view(&self) -> AxisFrameView {
        AxisFrameView {
            ordered_ev: self.ordered_ev@,
            source: self.source,
            available_modes: self.available_modes,
            is_stop: self.is_stop,
        }
    }
}

/// A pointer event that waits for the end of its frame.
pub enum PointerEvent {
    Event(PlainPointerEvent),
    Axis(AxisFrame),
}

pub enum PointerEventView {
    Event(PlainPointerEvent),
    Axis(AxisFrameView),
}

impl View for PointerEvent {
    type V = PointerEventView;

    open spec fn view(&self) -> PointerEventView {
        match self {
            PointerEvent::Event(e) => PointerEventView::Event(*e),
            PointerEvent::Axis(f) => PointerEventView::Axis(f@),
        }
    }
}

/// An event of a seat.
pub enum SeatEvent {
    Capabilities(SeatCapabilities),
    Name(String),
    Other,
}

/// The keyboard events other than key presses.
#[derive(Clone, Copy, PartialEq, Eq, Debug, Structural)]
pub enum KeyboardEvent {
    /// A keymap was received and installed.
    Keymap,
    Enter { surface: u32 },
    Leave { surface: u32 },
    Modifiers,
    RepeatInfo,
}

// ---------------------------------------------------------------------------
// Model of the pointer

pub open spec fn empty_frame() -> AxisFrameView {
    AxisFrameView { ordered_ev: Seq::empty(), source: None, available_modes: 0, is_stop: None }
}

/// Adds one scroll event to the scroll of its frame.
pub open spec fn add_axis_event(f: AxisFrameView, a: AxisEvent) -> AxisFrameView {
    let g = match a {
        AxisEvent::Axis { .. } => AxisFrameView { available_modes: f.available_modes | 1u8, ..f },
        AxisEvent::AxisValue120 { .. } => AxisFrameView { available_modes: f.available_modes | 2u8, ..f },
        AxisEvent::AxisDiscrete { .. } => AxisFrameView { available_modes: f.available_modes | 4u8, ..f },
        AxisEvent::AxisSource { source } => match source {
            Some(src) => AxisFrameView { source: Some(src), ..f },
            None => f,
        },
        AxisEvent::AxisStop { .. } => AxisFrameView {
            is_stop: match f.is_stop {
                None => Some(false),
                Some(_) => Some(true),
            },
            ..f
        },
        AxisEvent::AxisRelativeDirection { .. } => f,
    };
    AxisFrameView { ordered_ev: f.ordered_ev.push(a), ..g }
}

/// The slot that the output remembers for its pending scroll holds a scroll,
/// if it lies within the pending events.
pub open spec fn axis_slot_ok(o: OutputView) -> bool {
    match o.last_pointer_axis_event {
        Some(x) => x < o.pointer_events.len() ==> o.pointer_events[x as int] is Axis,
        None => true,
    }
}

/// A scroll event goes into the pending scroll of the output, which moves to
/// the end of the pending events.
pub open spec fn accumulate_axis(o: OutputView, a: AxisEvent) -> OutputView {
    let in_slot = match o.last_pointer_axis_event {
        Some(x) => x < o.pointer_events.len(),
        None => false,
    };
    let x = o.last_pointer_axis_event->0 as int;
    let base = if in_slot {
        match o.pointer_events[x] {
            PointerEventView::Axis(f) => f,
            PointerEventView::Event(_) => empty_frame(),
        }
    } else {
        empty_frame()
    };
    let rest = if in_slot { o.pointer_events.remove(x) } else { o.pointer_events };
    OutputView {
        pointer_events: rest.push(PointerEventView::Axis(add_axis_event(base, a))),
        last_pointer_axis_event: Some(rest.len() as usize),
        ..o
    }
}

pub open spec fn push_pending(o: OutputView, e: PlainPointerEvent) -> OutputView {
    OutputView { pointer_events: o.pointer_events.push(PointerEventView::Event(e)), ..o }
}

pub open spec fn push_ui(o: OutputView, e: UiEvent) -> OutputView {
    OutputView { events_to_flush: o.events_to_flush.push(e), ..o }
}

pub open spec fn pointer_of(s: StateView) -> Pointer {
    s.input->0.pointer->0
}

pub open spec fn keyboard_of(s: StateView) -> Option<Kb> {
    s.input->0.keyboard
}

pub open spec fn with_pointer(s: StateView, p: Pointer) -> StateView {
    StateView { input: Some(Input { pointer: Some(p), ..s.input->0 }), ..s }
}

pub open spec fn with_keyboard(s: StateView, k: Kb) -> StateView {
    StateView { input: Some(Input { keyboard: Some(k), ..s.input->0 }), ..s }
}

/// Every output has its lock surface.
pub open spec fn surfaces_ready(outs: Map<u32, OutputView>) -> bool {
    forall|n: u32| #[trigger] outs.contains_key(n) ==> outs[n].surface_info is Some
}

pub open spec fn surface_of(o: OutputView) -> u32 {
    o.surface_info->0.surface
}

/// `n` is an output whose lock surface is `surface`.
pub open spec fn surface_owner(outs: Map<u32, OutputView>, surface: u32, n: u32) -> bool {
    outs.contains_key(n) && surface_of(outs[n]) == surface
}

pub open spec fn has_surface(outs: Map<u32, OutputView>, surface: u32) -> bool {
    exists|n: u32| #[trigger] surface_owner(outs, surface, n)
}

/// A surface event can be handled: it names the lock surface of an output.
pub open spec fn surface_known(s: StateView, surface: u32) -> bool {
    surfaces_ready(s.outputs) && has_surface(s.outputs, surface)
}

/// The pointer button that a Linux input code stands for.
pub open spec fn spec_pointer_button(code: u32) -> Option<PointerButton> {
    if code == 272 {
        Some(PointerButton::Primary)
    } else if code == 273 {
        Some(PointerButton::Secondary)
    } else if code == 274 {
        Some(PointerButton::Middle)
    } else if code == 275 {
        Some(PointerButton::Extra1)
    } else if code == 276 {
        Some(PointerButton::Extra2)
    } else {
        None
    }
}

pub open spec fn kb_modifiers(kb: Option<Kb>) -> Modifiers {
    match kb {
        Some(k) => k.key_mods,
        None => no_modifiers(),
    }
}

/// Which amounts of a scroll are added up.
#[derive(Clone, Copy, PartialEq, Eq, Debug, Structural)]
pub enum AxisValueKind {
    Value120,
    Discrete,
    Continuous,
}

pub open spec fn on_axis(axis: WireAxis, vertical: bool) -> bool {
    if vertical {
        axis is VerticalScroll
    } else {
        axis is HorizontalScroll
    }
}

/// The amount that one scroll event adds along one axis.
pub open spec fn axis_amount(ev: AxisEvent, kind: AxisValueKind, vertical: bool) -> int {
    match ev {
        AxisEvent::AxisValue120 { axis, value120 } => if kind is Value120 && on_axis(axis, vertical) {
            value120 as int
        } else {
            0
        },
        AxisEvent::AxisDiscrete { axis, discrete } => if kind is Discrete && on_axis(axis, vertical) {
            discrete as int
        } else {
            0
        },
        AxisEvent::Axis { axis, value } => if kind is Continuous && on_axis(axis, vertical) {
            value as int
        } else {
            0
        },
        _ => 0,
    }
}

pub open spec fn axis_sum(evs: Seq<AxisEvent>, kind: AxisValueKind, vertical: bool) -> int
    decreases evs.len(),
{
    if evs.len() == 0 {
        0
    } else {
        axis_sum(evs.drop_last(), kind, vertical) + axis_amount(evs.last(), kind, vertical)
    }
}

pub open spec fn delta_of(evs: Seq<AxisEvent>, kind: AxisValueKind, divisor: u32) -> WheelDelta {
    WheelDelta {
        x: axis_sum(evs, kind, false) as i128,
        y: axis_sum(evs, kind, true) as i128,
        divisor,
    }
}

pub open spec fn zero_delta() -> WheelDelta {
    WheelDelta { x: 0, y: 0, divisor: 1 }
}

/// The amount of a wheel scroll, in lines: high resolution values in 1/120
/// of a step if there are any, else discrete steps, else continuous values
/// at 15 pixels a line.
pub open spec fn spec_wheel_delta(f: AxisFrameView) -> WheelDelta {
    if f.available_modes & 2u8 == 2u8 {
        delta_of(f.ordered_ev, AxisValueKind::Value120, 120)
    } else if f.available_modes & 4u8 == 4u8 {
        delta_of(f.ordered_ev, AxisValueKind::Discrete, 1)
    } else if f.available_modes & 1u8 == 1u8 {
        delta_of(f.ordered_ev, AxisValueKind::Continuous, 3840)
    } else {
        zero_delta()
    }
}

/// The amount of a finger or continuous scroll, in pixels.
pub open spec fn spec_continuous_delta(f: AxisFrameView) -> WheelDelta {
    if f.available_modes & 1u8 == 1u8 {
        delta_of(f.ordered_ev, AxisValueKind::Continuous, 256)
    } else {
        zero_delta()
    }
}

/// A scroll ends when a stop was seen and either it was seen twice or one of
/// the two amounts is zero.
pub open spec fn spec_wheel_phase(is_stop: Option<bool>, d: WheelDelta) -> WheelPhase {
    if is_stop is Some && (d.x == 0 || d.y == 0 || is_stop == Some(true)) {
        WheelPhase::End
    } else {
        WheelPhase::Move
    }
}

/// The state carried along while the pending events of one output are
/// turned into events for its user interface.
pub struct PointerFlow {
    pub emitted: Seq<UiEvent>,
    pub pointer: Pointer,
    pub axis_reset: bool,
    pub stopped: bool,
    pub needs_keyboard: bool,
}

pub open spec fn start_flow(p: Pointer) -> PointerFlow {
    PointerFlow { emitted: Seq::empty(), pointer: p, axis_reset: false, stopped: false, needs_keyboard: false }
}

pub open spec fn flush_step(f: PointerFlow, kb: Option<Kb>, name: u32, ev: PointerEventView) -> PointerFlow {
    match ev {
        PointerEventView::Event(pe) => match pe {
            PlainPointerEvent::Enter { .. } => PointerFlow {
                emitted: f.emitted.push(UiEvent::WindowFocused(true)),
                pointer: Pointer { focused_output: Some(name), ..f.pointer },
                ..f
            },
            PlainPointerEvent::Leave { .. } => PointerFlow {
                emitted: f.emitted.push(UiEvent::WindowFocused(false)),
                pointer: Pointer { focused_output: None, ..f.pointer },
                ..f
            },
            PlainPointerEvent::Motion { x, y } => PointerFlow {
                emitted: f.emitted.push(UiEvent::PointerMoved(Position { x, y })),
                pointer: Pointer { last_pointer_pos: Some(Position { x, y }), ..f.pointer },
                ..f
            },
            PlainPointerEvent::Button { button, pressed } => match spec_pointer_button(button) {
                None => PointerFlow { stopped: true, ..f },
                Some(b) => match f.pointer.last_pointer_pos {
                    Some(pos) => PointerFlow {
                        emitted: f.emitted.push(
                            UiEvent::PointerButton { pos, button: b, pressed, modifiers: kb_modifiers(kb) },
                        ),
                        ..f
                    },
                    None => f,
                },
            },
        },
        PointerEventView::Axis(fr) => match fr.source {
            Some(AxisSource::Wheel) => PointerFlow {
                emitted: f.emitted.push(
                    UiEvent::MouseWheel {
                        unit: WheelUnit::Line,
                        delta: spec_wheel_delta(fr),
                        phase: spec_wheel_phase(fr.is_stop, spec_wheel_delta(fr)),
                        modifiers: kb_modifiers(kb),
                    },
                ),
                axis_reset: true,
                needs_keyboard: true,
                ..f
            },
            Some(AxisSource::WheelTilt) => f,
            _ => PointerFlow {
                emitted: f.emitted.push(
                    UiEvent::MouseWheel {
                        unit: WheelUnit::Point,
                        delta: spec_continuous_delta(fr),
                        phase: spec_wheel_phase(fr.is_stop, spec_continuous_delta(fr)),
                        modifiers: kb_modifiers(kb),
                    },
                ),
                needs_keyboard: true,
                ..f
            },
        },
    }
}

/// The first `k` pending events of an output, handled in order; the output's
/// remaining events are dropped once an unknown button stops the frame.
pub open spec fn flush_events(f0: PointerFlow, kb: Option<Kb>, name: u32, evs: Seq<PointerEventView>, k: int) -> PointerFlow
    decreases k,
{
    if k <= 0 {
        f0
    } else {
        let f = flush_events(f0, kb, name, evs, k - 1);
        if f.stopped {
            f
        } else {
            flush_step(f, kb, name, evs[k - 1])
        }
    }
}

pub open spec fn flushed_output(o: OutputView, f: PointerFlow) -> OutputView {
    OutputView {
        events_to_flush: o.events_to_flush + f.emitted,
        pointer_events: Seq::empty(),
        last_pointer_axis_event: if f.axis_reset { None } else { o.last_pointer_axis_event },
        ..o
    }
}

pub struct FrameFlow {
    pub outputs: Map<u32, OutputView>,
    pub pointer: Pointer,
    pub stopped: bool,
}

pub open spec fn output_flow(o: OutputView, p: Pointer, kb: Option<Kb>) -> PointerFlow {
    flush_events(start_flow(p), kb, o.name, o.pointer_events, o.pointer_events.len() as int)
}

/// The outputs named by the first `k` entries of `order`, each with its
/// pending events handled; an unknown button leaves the outputs after it
/// untouched.
pub open spec fn flush_outputs(outs: Map<u32, OutputView>, order: Seq<u32>, p0: Pointer, kb: Option<Kb>, k: int) -> FrameFlow
    decreases k,
{
    if k <= 0 {
        FrameFlow { outputs: outs, pointer: p0, stopped: false }
    } else {
        let g = flush_outputs(outs, order, p0, kb, k - 1);
        if g.stopped {
            g
        } else {
            let key = order[k - 1];
            let o = g.outputs[key];
            let f = output_flow(o, g.pointer, kb);
            FrameFlow {
                outputs: g.outputs.insert(key, flushed_output(o, f)),
                pointer: f.pointer,
                stopped: f.stopped,
            }
        }
    }
}

pub open spec fn frame_flow(s: StateView, order: Seq<u32>) -> FrameFlow {
    flush_outputs(s.outputs, order, pointer_of(s), keyboard_of(s), order.len() as int)
}

/// The end of a pointer frame, the outputs being walked in `order`: the
/// pending events of every output become events of its user interface.
pub open spec fn frame_next(s: StateView, order: Seq<u32>) -> StateView {
    let g = frame_flow(s, order);
    with_pointer(
        StateView { outputs: g.outputs, new_events: if g.stopped { s.new_events } else { true }, ..s },
        g.pointer,
    )
}

pub open spec fn no_pointer() -> Pointer {
    Pointer { focused_output: None, last_focused_output_in_events: None, last_pointer_pos: None }
}

/// Handing on the pending events of the output reaches a scroll, which takes
/// the keyboard's modifiers.
pub open spec fn output_needs_keyboard(o: OutputView) -> bool {
    output_flow(o, no_pointer(), None).needs_keyboard
}

/// Some output would hand on a scroll at the end of the frame, whatever the
/// order in which the outputs are walked.
pub open spec fn frame_needs_keyboard_spec(s: StateView) -> bool {
    exists|n: u32| #[trigger] s.outputs.contains_key(n) && output_needs_keyboard(s.outputs[n])
}

/// The pointer events that the lock screen can handle in state `s`.
pub open spec fn pointer_event_allowed(s: StateView, ev: WirePointerEvent) -> bool {
    &&& s.input matches Some(inp)
    &&& inp.pointer is Some
    &&& match ev {
        WirePointerEvent::Plain(PlainPointerEvent::Enter { surface, .. }) => surface_known(s, surface),
        WirePointerEvent::Frame => frame_needs_keyboard_spec(s) ==> keyboard_of(s) is Some,
        WirePointerEvent::Axis(_) => {
            &&& pointer_of(s).last_focused_output_in_events matches Some(n)
            &&& has_output(s.outputs, n)
            &&& axis_slot_ok(s.output(n))
        },
        _ => {
            &&& pointer_of(s).last_focused_output_in_events matches Some(n)
            &&& has_output(s.outputs, n)
        },
    }
}

/// What a pointer event leaves open: the output a surface belongs to (for an
/// enter event) and the order in which the outputs are walked (for the end
/// of a frame).
pub open spec fn pointer_choice_ok(s: StateView, ev: WirePointerEvent, target: u32, order: Seq<u32>) -> bool {
    match ev {
        WirePointerEvent::Plain(PlainPointerEvent::Enter { surface, .. }) => surface_owner(s.outputs, surface, target),
        WirePointerEvent::Frame => is_output_order(s.outputs, order),
        _ => true,
    }
}

/// The state after a pointer event.
pub open spec fn pointer_next(s: StateView, ev: WirePointerEvent, target: u32, order: Seq<u32>) -> StateView {
    let p = pointer_of(s);
    let n = p.last_focused_output_in_events->0;
    match ev {
        WirePointerEvent::Plain(pe) => match pe {
            PlainPointerEvent::Enter { .. } => with_pointer(
                StateView { outputs: s.outputs.insert(target, push_pending(s.outputs[target], pe)), ..s },
                Pointer { last_focused_output_in_events: Some(s.outputs[target].name), ..p },
            ),
            PlainPointerEvent::Leave { .. } => with_pointer(
                StateView { outputs: s.outputs.insert(n, push_pending(s.outputs[n], pe)), ..s },
                Pointer { last_focused_output_in_events: None, ..p },
            ),
            _ => StateView { outputs: s.outputs.insert(n, push_pending(s.outputs[n], pe)), ..s },
        },
        WirePointerEvent::Axis(a) => StateView { outputs: s.outputs.insert(n, accumulate_axis(s.outputs[n], a)), ..s },
        WirePointerEvent::Frame => frame_next(s, order),
    }
}

// ---------------------------------------------------------------------------
// Model of the keyboard and of the seats

/// Whether `c` is a control character (general category Cc).
pub open spec fn is_control_char(c: char) -> bool {
    (c as u32) <= 0x1f || (0x7f <= (c as u32) && (c as u32) <= 0x9f)
}

/// Whether the text holds a character other than a control character.
pub open spec fn has_printable(text: Seq<char>) -> bool {
    exists|i: int| 0 <= i < text.len() && !is_control_char(#[trigger] text[i])
}

/// The key of the user interface that a keysym stands for.
pub open spec fn spec_keysym_key(sym: u32) -> Option<UiKey> {
    if sym == 0xff08 {
        Some(UiKey::Backspace)
    } else if sym == 0xff0d || sym == 0xff8d {
        Some(UiKey::Enter)
    } else if sym == 0xff1b {
        Some(UiKey::Escape)
    } else {
        None
    }
}

/// The events of a key press or release: the key, if it is one the user
/// interface knows, then, for a press, the text it typed unless that text is
/// only control characters.
pub open spec fn key_ui_events(sym: u32, pressed: bool, text: String, mods: Modifiers) -> Seq<UiEvent> {
    let k = match spec_keysym_key(sym) {
        Some(key) => seq![UiEvent::Key { key, pressed, modifiers: mods }],
        None => Seq::empty(),
    };
    if pressed && has_printable(text@) {
        k.push(UiEvent::Text(text))
    } else {
        k
    }
}

/// The output that key presses go to.
pub open spec fn key_target(s: StateView) -> Option<u32> {
    match s.input {
        Some(inp) => match inp.keyboard {
            Some(k) => k.focused_output,
            None => None,
        },
        None => None,
    }
}

pub open spec fn keyboard_event_allowed(s: StateView, ev: KeyboardEvent) -> bool {
    &&& s.input is Some
    &&& match ev {
        KeyboardEvent::Keymap => keyboard_of(s) is Some,
        KeyboardEvent::Enter { surface } => keyboard_of(s) is Some && surface_known(s, surface),
        KeyboardEvent::Leave { surface } => keyboard_of(s) is Some && surface_known(s, surface),
        _ => true,
    }
}

/// What a keyboard event leaves open: the output that the surface of an
/// enter or leave event belongs to.
pub open spec fn keyboard_choice_ok(s: StateView, ev: KeyboardEvent, target: u32) -> bool {
    match ev {
        KeyboardEvent::Enter { surface } => surface_owner(s.outputs, surface, target),
        KeyboardEvent::Leave { surface } => surface_owner(s.outputs, surface, target),
        _ => true,
    }
}

/// The state after a keyboard event other than a key press; `target` is the
/// output whose lock surface an enter or leave event names.
pub open spec fn keyboard_next(s: StateView, ev: KeyboardEvent, target: u32) -> StateView {
    let kb = keyboard_of(s)->0;
    let s1 = match ev {
        KeyboardEvent::Keymap => with_keyboard(s, Kb { has_keymap: true, ..kb }),
        KeyboardEvent::Enter { .. } => with_keyboard(
            StateView {
                outputs: s.outputs.insert(target, push_ui(s.outputs[target], UiEvent::WindowFocused(true))),
                ..s
            },
            Kb { focused_output: Some(s.outputs[target].name), ..kb },
        ),
        KeyboardEvent::Leave { .. } => with_keyboard(
            StateView {
                outputs: s.outputs.insert(target, push_ui(s.outputs[target], UiEvent::WindowFocused(false))),
                ..s
            },
            Kb { focused_output: None, ..kb },
        ),
        _ => s,
    };
    StateView { new_events: true, ..s1 }
}

/// The state after a key press or release: nothing changes when there is
/// no keyboard or it is on no output; otherwise the output it is on gets the
/// key's events and new input is marked.
pub open spec fn key_next(s: StateView, sym: u32, pressed: bool, text: String) -> StateView {
    match key_target(s) {
        None => s,
        Some(n) => {
            let o = s.outputs[n];
            StateView {
                outputs: s.outputs.insert(
                    n,
                    OutputView {
                        events_to_flush: o.events_to_flush + key_ui_events(
                            sym,
                            pressed,
                            text,
                            keyboard_of(s)->0.key_mods,
                        ),
                        ..o
                    },
                ),
                new_events: true,
                ..s
            }
        },
    }
}

/// The state after an event of the seat announced under `global`.
pub open spec fn seat_next(s: StateView, global: u32, ev: SeatEvent) -> StateView {
    let seat = s.seats[global];
    match ev {
        SeatEvent::Capabilities(c) => StateView {
            seats: s.seats.insert(global, Seat { capabilities: Some(c), ..seat }),
            ..s
        },
        SeatEvent::Name(n) => StateView { seats: s.seats.insert(global, Seat { name: Some(n), ..seat }), ..s },
        SeatEvent::Other => s,
    }
}

// ---------------------------------------------------------------------------
// Handling the keyboard and the seats

/// Whether `c` is a control character (see `is_control_char`).
pub fn is_control(c: char) -> (r: bool)
    ensures
        r == is_control_char(c),
{
    let v = c as u32;
    v <= 0x1f || (0x7f <= v && v <= 0x9f)
}

/// Whether the text holds a character other than a control character.
pub fn printable(text: &str) -> (r: bool)
    ensures
        r == has_printable(text@),
{
    let mut found = false;
    for c in it: text.chars()
        invariant
            it.seq() == text@,
            found == (exists|i: int| 0 <= i < it.index() && !is_control_char(#[trigger] text@[i])),
    {
        if !is_control(c) {
            found = true;
        }
    }
    found
}

/// The key of the user interface that a keysym stands for.
pub fn keysym_key(sym: u32) -> (r: Option<UiKey>)
    ensures
        r == spec_keysym_key(sym),
{
    if sym == 0xff08 {
        Some(UiKey::Backspace)
    } else if sym == 0xff0d || sym == 0xff8d {
        Some(UiKey::Enter)
    } else if sym == 0xff1b {
        Some(UiKey::Escape)
    } else {
        None
    }
}

/// `std::str::from_utf8`: the bytes read as UTF-8 text. Its documentation
/// says that it succeeds exactly when the bytes are valid UTF-8, and that the
/// text then consists of those very bytes.
#[verifier::external_body]
fn str_from_utf8(bytes: &[u8]) -> (r: Option<&str>)
    ensures
        r is Some <==> valid_utf8(bytes@),
        r matches Some(t) ==> t.spec_bytes() == bytes@,
{
    std::str::from_utf8(bytes).ok()
}

/// The text of a keymap as the compositor shares it: the bytes up to the
/// terminating NUL byte, read as UTF-8; `None` when they are not UTF-8.
pub fn keymap_text(data: &[u8]) -> (r: Option<String>)
    requires
        data@.len() >= 1,
    ensures
        r is Some <==> valid_utf8(data@.drop_last()),
        r matches Some(t) ==> encode_utf8(t@) == data@.drop_last(),
{
    let body = &data[0..data.len() - 1];
    assert(body@ =~= data@.drop_last());
    match str_from_utf8(body) {
        Some(t) => Some(t.to_owned()),
        None => None,
    }
}

/// The keymap's keycode of a key that the compositor reports by its Linux
/// input code.
pub fn xkb_keycode(key: u32) -> (r: u32)
    requires
        key <= u32::MAX - 8,
    ensures
        r == key + 8,
{
    key + 8
}

// ---------------------------------------------------------------------------
// Handling the pointer

/// The pointer button that a Linux input code stands for.
pub fn pointer_button(code: u32) -> (r: Option<PointerButton>)
    ensures
        r == spec_pointer_button(code),
{
    if code == 272 {
        Some(PointerButton::Primary)
    } else if code == 273 {
        Some(PointerButton::Secondary)
    } else if code == 274 {
        Some(PointerButton::Middle)
    } else if code == 275 {
        Some(PointerButton::Extra1)
    } else if code == 276 {
        Some(PointerButton::Extra2)
    } else {
        None
    }
}

fn modifiers_of(kb: Option<Kb>) -> (r: Modifiers)
    ensures
        r == kb_modifiers(kb),
{
    match kb {
        Some(k) => k.key_mods,
        None => Modifiers::none(),
    }
}

fn axis_amount_of(ev: AxisEvent, kind: AxisValueKind, vertical: bool) -> (r: i32)
    ensures
        r as int == axis_amount(ev, kind, vertical),
{
    let on = |axis: WireAxis| -> (b: bool)
        ensures
            b == on_axis(axis, vertical),
        {
            if vertical {
                axis == WireAxis::VerticalScroll
            } else {
                axis == WireAxis::HorizontalScroll
            }
        };
    match ev {
        AxisEvent::AxisValue120 { axis, value120 } => if kind == AxisValueKind::Value120 && on(axis) {
            value120
        } else {
            0
        },
        AxisEvent::AxisDiscrete { axis, discrete } => if kind == AxisValueKind::Discrete && on(axis) {
            discrete
        } else {
            0
        },
        AxisEvent::Axis { axis, value } => if kind == AxisValueKind::Continuous && on(axis) {
            value
        } else {
            0
        },
        _ => 0,
    }
}

/// The amounts of one kind that the scroll events add up to, to the side and
/// down.
pub fn axis_sums(evs: &Vec<AxisEvent>, kind: AxisValueKind) -> (r: (i128, i128))
    ensures
        r.0 as int == axis_sum(evs@, kind, false),
        r.1 as int == axis_sum(evs@, kind, true),
{
    let mut sx: i128 = 0;
    let mut sy: i128 = 0;
    let mut i: usize = 0;
    while i < evs.len()
        invariant
            i <= evs.len(),
            sx as int == axis_sum(evs@.take(i as int), kind, false),
            sy as int == axis_sum(evs@.take(i as int), kind, true),
            -(i as int) * 0x8000_0000 <= sx <= (i as int) * 0x8000_0000,
            -(i as int) * 0x8000_0000 <= sy <= (i as int) * 0x8000_0000,
        decreases evs.len() - i,
    {
        proof {
            assert(evs@.take(i + 1).drop_last() =~= evs@.take(i as int));
            assert(evs@.take(i + 1).last() == evs@[i as int]);
        }
        let ax = axis_amount_of(evs[i], kind, false);
        let ay = axis_amount_of(evs[i], kind, true);
        sx = sx + ax as i128;
        sy = sy + ay as i128;
        i = i + 1;
    }
    assert(evs@.take(i as int) =~= evs@);
    (sx, sy)
}

fn delta_from(evs: &Vec<AxisEvent>, kind: AxisValueKind, divisor: u32) -> (r: WheelDelta)
    ensures
        r == delta_of(evs@, kind, divisor),
{
    let (x, y) = axis_sums(evs, kind);
    WheelDelta { x, y, divisor }
}

/// The amount of a wheel scroll (see `spec_wheel_delta`).
pub fn wheel_delta(f: &AxisFrame) -> (r: WheelDelta)
    ensures
        r == spec_wheel_delta(f@),
{
    if f.available_modes & 2u8 == 2u8 {
        delta_from(&f.ordered_ev, AxisValueKind::Value120, 120)
    } else if f.available_modes & 4u8 == 4u8 {
        delta_from(&f.ordered_ev, AxisValueKind::Discrete, 1)
    } else if f.available_modes & 1u8 == 1u8 {
        delta_from(&f.ordered_ev, AxisValueKind::Continuous, 3840)
    } else {
        WheelDelta { x: 0, y: 0, divisor: 1 }
    }
}

/// The amount of a finger or continuous scroll (see `spec_continuous_delta`).
pub fn continuous_delta(f: &AxisFrame) -> (r: WheelDelta)
    ensures
        r == spec_continuous_delta(f@),
{
    if f.available_modes & 1u8 == 1u8 {
        delta_from(&f.ordered_ev, AxisValueKind::Continuous, 256)
    } else {
        WheelDelta { x: 0, y: 0, divisor: 1 }
    }
}

/// Whether a scroll goes on or has ended (see `spec_wheel_phase`).
pub fn wheel_phase(is_stop: Option<bool>, d: WheelDelta) -> (r: WheelPhase)
    ensures
        r == spec_wheel_phase(is_stop, d),
{
    let mut should_be_stop = false;
    if (d.x == 0 || d.y == 0) && is_stop.is_some() {
        should_be_stop = true;
    } else if is_stop.is_some() {
        should_be_stop = is_stop.unwrap();
    }
    if should_be_stop {
        WheelPhase::End
    } else {
        WheelPhase::Move
    }
}

impl AxisFrame {
    /// A scroll with no events yet.
    pub fn new() -> (r: AxisFrame)
        ensures
            r@ == empty_frame(),
    {
        AxisFrame { ordered_ev: Vec::new(), source: None, available_modes: 0, is_stop: None }
    }

    /// Adds one scroll event (see `add_axis_event`).
    pub fn add(&mut self, a: AxisEvent)
        ensures
            final(self)@ == add_axis_event(old(self)@, a),
    {
        match a {
            AxisEvent::Axis { .. } => self.available_modes = self.available_modes | 1u8,
            AxisEvent::AxisValue120 { .. } => self.available_modes = self.available_modes | 2u8,
            AxisEvent::AxisDiscrete { .. } => self.available_modes = self.available_modes | 4u8,
            AxisEvent::AxisSource { source } => {
                if let Some(src) = source {
                    self.source = Some(src);
                }
            },
            AxisEvent::AxisStop { .. } => {
                if self.is_stop.is_none() {
                    self.is_stop = Some(false);
                } else if !self.is_stop.unwrap() {
                    self.is_stop = Some(true);
                }
            },
            AxisEvent::AxisRelativeDirection { .. } => {},
        }
        self.ordered_ev.push(a);
    }
}

struct Flow {
    emitted: Vec<UiEvent>,
    pointer: Pointer,
    axis_reset: bool,
    stopped: bool,
    needs_keyboard: Ghost<bool>,
}

impl View for Flow {
    type V = PointerFlow;

    closed spec fn view(&self) -> PointerFlow {
        PointerFlow {
            emitted: self.emitted@,
            pointer: self.pointer,
            axis_reset: self.axis_reset,
            stopped: self.stopped,
            needs_keyboard: self.needs_keyboard@,
        }
    }
}

fn flush_one(flow: &mut Flow, ev: &PointerEvent, kb: Option<Kb>, name: u32)
    ensures
        final(flow)@ == flush_step(old(flow)@, kb, name, ev@),
{
    match ev {
        PointerEvent::Event(pe) => match *pe {
            PlainPointerEvent::Enter { .. } => {
                flow.emitted.push(UiEvent::WindowFocused(true));
                flow.pointer.focused_output = Some(name);
            },
            PlainPointerEvent::Leave { .. } => {
                flow.emitted.push(UiEvent::WindowFocused(false));
                flow.pointer.focused_output = None;
            },
            PlainPointerEvent::Motion { x, y } => {
                flow.pointer.last_pointer_pos = Some(Position { x, y });
                flow.emitted.push(UiEvent::PointerMoved(Position { x, y }));
            },
            PlainPointerEvent::Button { button, pressed } => {
                let modifiers = modifiers_of(kb);
                match pointer_button(button) {
                    None => {
                        flow.stopped = true;
                    },
                    Some(b) => {
                        if let Some(pos) = flow.pointer.last_pointer_pos {
                            flow.emitted.push(UiEvent::PointerButton { pos, button: b, pressed, modifiers });
                        }
                    },
                }
            },
        },
        PointerEvent::Axis(fr) => match fr.source {
            Some(AxisSource::Wheel) => {
                let delta = wheel_delta(fr);
                let phase = wheel_phase(fr.is_stop, delta);
                flow.emitted.push(
                    UiEvent::MouseWheel { unit: WheelUnit::Line, delta, phase, modifiers: modifiers_of(kb) },
                );
                flow.axis_reset = true;
                flow.needs_keyboard = Ghost(true);
            },
            Some(AxisSource::WheelTilt) => {},
            _ => {
                let delta = continuous_delta(fr);
                let phase = wheel_phase(fr.is_stop, delta);
                flow.emitted.push(
                    UiEvent::MouseWheel { unit: WheelUnit::Point, delta, phase, modifiers: modifiers_of(kb) },
                );
                flow.needs_keyboard = Ghost(true);
            },
        },
    }
}


pub proof fn lemma_events_stopped(f0: PointerFlow, kb: Option<Kb>, name: u32, evs: Seq<PointerEventView>, k: int, m: int)
    requires
        0 <= k <= m,
        flush_events(f0, kb, name, evs, k).stopped,
    ensures
        flush_events(f0, kb, name, evs, m) == flush_events(f0, kb, name, evs, k),
    decreases m,
{
    if m > k {
        lemma_events_stopped(f0, kb, name, evs, k, m - 1);
    }
}

/// Whether the pending events of an output stop at an unknown button, and
/// whether they reach a scroll, does not depend on where the pointer was or
/// on the keyboard.
pub proof fn lemma_flow_flags(
    p1: Pointer,
    p2: Pointer,
    kb1: Option<Kb>,
    kb2: Option<Kb>,
    n1: u32,
    n2: u32,
    evs: Seq<PointerEventView>,
    k: int,
)
    ensures
        flush_events(start_flow(p1), kb1, n1, evs, k).stopped == flush_events(start_flow(p2), kb2, n2, evs, k).stopped,
        flush_events(start_flow(p1), kb1, n1, evs, k).needs_keyboard == flush_events(
            start_flow(p2),
            kb2,
            n2,
            evs,
            k,
        ).needs_keyboard,
    decreases k,
{
    if k > 0 {
        lemma_flow_flags(p1, p2, kb1, kb2, n1, n2, evs, k - 1);
    }
}

pub proof fn lemma_outputs_stopped(outs: Map<u32, OutputView>, order: Seq<u32>, p0: Pointer, kb: Option<Kb>, k: int, m: int)
    requires
        0 <= k <= m,
        flush_outputs(outs, order, p0, kb, k).stopped,
    ensures
        flush_outputs(outs, order, p0, kb, m) == flush_outputs(outs, order, p0, kb, k),
    decreases m,
{
    if m > k {
        lemma_outputs_stopped(outs, order, p0, kb, k, m - 1);
    }
}

/// Handing on the pending events of some outputs keeps the set of outputs and
/// their names, and leaves the outputs not yet walked as they were.
pub proof fn lemma_flush_outputs_shape(outs: Map<u32, OutputView>, order: Seq<u32>, p0: Pointer, kb: Option<Kb>, k: int)
    requires
        0 <= k <= order.len(),
        forall|j: int| 0 <= j < order.len() ==> outs.contains_key(#[trigger] order[j]),
    ensures
        flush_outputs(outs, order, p0, kb, k).outputs.dom() == outs.dom(),
        forall|n: u32| #[trigger] outs.contains_key(n) ==> flush_outputs(outs, order, p0, kb, k).outputs[n].name == outs[n].name,
        forall|n: u32|
            outs.contains_key(n) && !order.take(k).contains(n) ==> #[trigger] flush_outputs(outs, order, p0, kb, k).outputs[n]
                == outs[n],
    decreases k,
{
    if k > 0 {
        lemma_flush_outputs_shape(outs, order, p0, kb, k - 1);
        let g = flush_outputs(outs, order, p0, kb, k - 1);
        assert(flush_outputs(outs, order, p0, kb, k).outputs.dom() =~= outs.dom());
        assert forall|n: u32| outs.contains_key(n) && !order.take(k).contains(n) implies #[trigger] flush_outputs(
            outs,
            order,
            p0,
            kb,
            k,
        ).outputs[n] == outs[n] by {
            assert(!order.take(k - 1).contains(n)) by {
                if order.take(k - 1).contains(n) {
                    let j = choose|j: int| 0 <= j < k - 1 && #[trigger] order.take(k - 1)[j] == n;
                    assert(order.take(k)[j] == n);
                }
            }
            assert(order.take(k)[k - 1] == order[k - 1]);
        }
    }
}

proof fn lemma_flush_outputs_clears(outs: Map<u32, OutputView>, order: Seq<u32>, p0: Pointer, kb: Option<Kb>, k: int)
    requires
        0 <= k <= order.len(),
        order.no_duplicates(),
        forall|j: int| 0 <= j < order.len() ==> outs.contains_key(#[trigger] order[j]),
        !flush_outputs(outs, order, p0, kb, k).stopped,
    ensures
        forall|j: int| 0 <= j < k ==> (#[trigger] flush_outputs(outs, order, p0, kb, k).outputs[order[j]]).pointer_events.len() == 0,
    decreases k,
{
    if k > 0 {
        lemma_flush_outputs_clears(outs, order, p0, kb, k - 1);
        assert forall|j: int| 0 <= j < k implies (#[trigger] flush_outputs(outs, order, p0, kb, k).outputs[order[j]]).pointer_events.len()
            == 0 by {
            if j < k - 1 {
                assert(order[j] != order[k - 1]);
            }
        }
    }
}

/// A pointer frame that no unknown button cuts short hands every pending
/// pointer event to the user interfaces, whatever the order in which the
/// outputs are walked: no output keeps any, and new input is marked.
pub proof fn lemma_frame_drains(s: StateView, order: Seq<u32>)
    requires
        is_output_order(s.outputs, order),
        !frame_flow(s, order).stopped,
    ensures
        frame_next(s, order).outputs.dom() == s.outputs.dom(),
        forall|n: u32| #[trigger] s.outputs.contains_key(n) ==> frame_next(s, order).outputs[n].pointer_events.len() == 0,
        frame_next(s, order).new_events,
{
    assert forall|j: int| 0 <= j < order.len() implies s.outputs.contains_key(#[trigger] order[j]) by {
        assert(order.contains(order[j]));
    }
    lemma_flush_outputs_shape(s.outputs, order, pointer_of(s), keyboard_of(s), order.len() as int);
    lemma_flush_outputs_clears(s.outputs, order, pointer_of(s), keyboard_of(s), order.len() as int);
    assert forall|n: u32| #[trigger] s.outputs.contains_key(n) implies frame_next(s, order).outputs[n].pointer_events.len()
        == 0 by {
        assert(order.contains(n));
        let j = choose|j: int| 0 <= j < order.len() && order[j] == n;
        assert(flush_outputs(s.outputs, order, pointer_of(s), keyboard_of(s), order.len() as int).outputs[order[j]].pointer_events.len() == 0);
    }
}

proof fn lemma_one_output_pending(
    outs: Map<u32, OutputView>,
    order: Seq<u32>,
    p0: Pointer,
    kb: Option<Kb>,
    n: u32,
    k: int,
)
    requires
        0 <= k <= order.len(),
        order.no_duplicates(),
        forall|j: int| 0 <= j < order.len() ==> outs.contains_key(#[trigger] order[j]),
        outs.contains_key(n),
        forall|m: u32| m != n && #[trigger] outs.contains_key(m) ==> outs[m].pointer_events.len() == 0,
    ensures
        ({
            let g = flush_outputs(outs, order, p0, kb, k);
            &&& g.outputs.dom() == outs.dom()
            &&& forall|m: u32| m != n && #[trigger] outs.contains_key(m) ==> g.outputs[m] == outs[m]
            &&& order.take(k).contains(n) ==> g.outputs[n] == flushed_output(outs[n], output_flow(outs[n], p0, kb))
            &&& !order.take(k).contains(n) ==> g.outputs[n] == outs[n] && g.pointer == p0 && !g.stopped
        }),
    decreases k,
{
    if k > 0 {
        lemma_one_output_pending(outs, order, p0, kb, n, k - 1);
        let g0 = flush_outputs(outs, order, p0, kb, k - 1);
        let g = flush_outputs(outs, order, p0, kb, k);
        let key = order[k - 1];
        assert(order.take(k) =~= order.take(k - 1).push(key));
        if !order.take(k - 1).contains(n) {
            assert(!g0.stopped);
        }
        if !g0.stopped {
            let o = g0.outputs[key];
            let f = output_flow(o, g0.pointer, kb);
            if key != n {
                assert(o == outs[key]);
                assert(flush_events(start_flow(g0.pointer), kb, o.name, o.pointer_events, 0) == start_flow(g0.pointer));
                assert(f == start_flow(g0.pointer));
                assert(o.events_to_flush + f.emitted =~= o.events_to_flush);
                assert(o.pointer_events =~= Seq::<PointerEventView>::empty());
                assert(flushed_output(o, f) == o);
                assert(g.outputs =~= g0.outputs);
            } else {
                assert(!order.take(k - 1).contains(n)) by {
                    if order.take(k - 1).contains(n) {
                        let j = choose|j: int| 0 <= j < k - 1 && #[trigger] order.take(k - 1)[j] == n;
                        assert(order[j] == order[k - 1]);
                    }
                }
            }
        }
        assert(g.outputs.dom() =~= outs.dom());
        assert forall|m: u32| m != n && #[trigger] outs.contains_key(m) implies g.outputs[m] == outs[m] by {}
        if order.take(k).contains(n) {
            assert(g.outputs[n] == flushed_output(outs[n], output_flow(outs[n], p0, kb)));
        } else {
            assert(!order.take(k - 1).contains(n)) by {
                if order.take(k - 1).contains(n) {
                    let j = choose|j: int| 0 <= j < k - 1 && #[trigger] order.take(k - 1)[j] == n;
                    assert(order.take(k)[j] == n);
                }
            }
            assert(order.take(k)[k - 1] == key);
            assert(key != n);
            assert(g.outputs[n] == outs[n] && g.pointer == p0 && !g.stopped);
        }
    } else {
        assert(order.take(k) =~= Seq::<u32>::empty());
    }
}

/// At the end of a frame in which only output `n` has pending pointer
/// events, `n`'s user interface gets exactly the events that handing on its
/// pending events produces, after the ones already waiting, whatever the
/// order in which the outputs are walked; the other outputs are unchanged.
pub proof fn lemma_frame_one_output(s: StateView, order: Seq<u32>, n: u32)
    requires
        is_output_order(s.outputs, order),
        s.outputs.contains_key(n),
        forall|m: u32| m != n && #[trigger] s.outputs.contains_key(m) ==> s.outputs[m].pointer_events.len() == 0,
    ensures
        frame_next(s, order).outputs[n].events_to_flush == s.outputs[n].events_to_flush + output_flow(
            s.outputs[n],
            pointer_of(s),
            keyboard_of(s),
        ).emitted,
        forall|m: u32| m != n && #[trigger] s.outputs.contains_key(m) ==> frame_next(s, order).outputs[m] == s.outputs[m],
{
    assert forall|j: int| 0 <= j < order.len() implies s.outputs.contains_key(#[trigger] order[j]) by {
        assert(order.contains(order[j]));
    }
    lemma_one_output_pending(s.outputs, order, pointer_of(s), keyboard_of(s), n, order.len() as int);
    assert(order.take(order.len() as int) =~= order);
    assert(order.contains(n));
}

/// The whole click, seen from the state: when the pointer moved to
/// `(x, y)` over output `n` and pressed or released a known button, and no
/// other output has pending pointer events, the end of the frame shows `n`
/// the move and then the button going down or up, at that spot.
pub proof fn lemma_frame_click_state(s: StateView, order: Seq<u32>, n: u32, x: i32, y: i32, button: u32, pressed: bool)
    requires
        is_output_order(s.outputs, order),
        s.outputs.contains_key(n),
        forall|m: u32| m != n && #[trigger] s.outputs.contains_key(m) ==> s.outputs[m].pointer_events.len() == 0,
        spec_pointer_button(button) is Some,
        s.outputs[n].pointer_events == seq![
            PointerEventView::Event(PlainPointerEvent::Motion { x, y }),
            PointerEventView::Event(PlainPointerEvent::Button { button, pressed }),
        ],
    ensures
        frame_next(s, order).outputs[n].events_to_flush == s.outputs[n].events_to_flush.push(
            UiEvent::PointerMoved(Position { x, y }),
        ).push(
            UiEvent::PointerButton {
                pos: Position { x, y },
                button: spec_pointer_button(button)->0,
                pressed,
                modifiers: kb_modifiers(keyboard_of(s)),
            },
        ),
{
    lemma_frame_one_output(s, order, n);
    lemma_frame_click(s.outputs[n], pointer_of(s), keyboard_of(s), x, y, button, pressed);
    let e = s.outputs[n].events_to_flush;
    let a = UiEvent::PointerMoved(Position { x, y });
    let b = UiEvent::PointerButton {
        pos: Position { x, y },
        button: spec_pointer_button(button)->0,
        pressed,
        modifiers: kb_modifiers(keyboard_of(s)),
    };
    assert(e + seq![a, b] =~= e.push(a).push(b));
}

/// After a scroll event, the output's last pending event is the scroll that
/// gathers the events of this frame, it ends with that event, and the output
/// remembers where it is.
pub proof fn lemma_scroll_slot(o: OutputView, a: AxisEvent)
    requires
        axis_slot_ok(o),
        o.pointer_events.len() <= usize::MAX,
    ensures
        ({
            let o2 = accumulate_axis(o, a);
            let last = o2.pointer_events.len() - 1;
            &&& o2.pointer_events.len() >= 1
            &&& o2.last_pointer_axis_event == Some(last as usize)
            &&& axis_slot_ok(o2)
            &&& o2.pointer_events[last] matches PointerEventView::Axis(f) && f.ordered_ev.last() == a
            &&& o2.events_to_flush == o.events_to_flush
            &&& o2.name == o.name
        }),
{
}

/// Scroll events that follow each other within a frame gather into one
/// pending scroll: the number of pending events does not grow.
pub proof fn lemma_scroll_gathers(o: OutputView, a: AxisEvent)
    requires
        1 <= o.pointer_events.len() <= usize::MAX,
        o.last_pointer_axis_event == Some((o.pointer_events.len() - 1) as usize),
        o.pointer_events.last() is Axis,
    ensures
        accumulate_axis(o, a).pointer_events.len() == o.pointer_events.len(),
        accumulate_axis(o, a).pointer_events.drop_last() == o.pointer_events.drop_last(),
{
    let x = o.pointer_events.len() - 1;
    assert(o.pointer_events.remove(x) =~= o.pointer_events.drop_last());
    assert(accumulate_axis(o, a).pointer_events.drop_last() =~= o.pointer_events.drop_last());
}

/// Once the keyboard entered the lock surface of an output, key presses go
/// to that output; once it left, they go nowhere.
pub proof fn lemma_keyboard_focus(s: StateView, surface: u32, target: u32)
    requires
        s.wf(),
        keyboard_event_allowed(s, KeyboardEvent::Enter { surface }),
        surface_owner(s.outputs, surface, target),
    ensures
        key_target(keyboard_next(s, KeyboardEvent::Enter { surface }, target)) == Some(target),
        key_target(keyboard_next(s, KeyboardEvent::Leave { surface }, target)) is None,
{
}

/// A key press or release while no keyboard is on an output changes nothing.
pub proof fn lemma_key_without_focus(s: StateView, sym: u32, pressed: bool, text: String)
    requires
        key_target(s) is None,
    ensures
        key_next(s, sym, pressed, text) == s,
{
}

/// Handing on a press or release of a known button, with the pointer's
/// position known, adds one button event at that position that is pressed
/// exactly when the wire event was a press; the pointer and the rest of the
/// flow are left as they were.
pub proof fn lemma_button_keeps_pressed(f: PointerFlow, kb: Option<Kb>, name: u32, button: u32, pressed: bool, pos: Position)
    requires
        spec_pointer_button(button) is Some,
        f.pointer.last_pointer_pos == Some(pos),
        !f.stopped,
    ensures
        ({
            let g = flush_step(f, kb, name, PointerEventView::Event(PlainPointerEvent::Button { button, pressed }));
            &&& g.emitted.len() == f.emitted.len() + 1
            &&& g.emitted.take(f.emitted.len() as int) == f.emitted
            &&& g.emitted.last() matches UiEvent::PointerButton { pos: p, button: b, pressed: q, modifiers: m }
            &&& p == pos
            &&& Some(b) == spec_pointer_button(button)
            &&& q == pressed
            &&& m == kb_modifiers(kb)
            &&& g.pointer == f.pointer
            &&& !g.stopped
        }),
{
    let g = flush_step(f, kb, name, PointerEventView::Event(PlainPointerEvent::Button { button, pressed }));
    assert(g.emitted.take(f.emitted.len() as int) =~= f.emitted);
}

/// At the end of a frame, an output whose pending events are a move to
/// `(x, y)` and then a press or release of a known button shows its user
/// interface the move and then the button going down or up, at that spot.
pub proof fn lemma_frame_click(o: OutputView, p: Pointer, kb: Option<Kb>, x: i32, y: i32, button: u32, pressed: bool)
    requires
        spec_pointer_button(button) is Some,
        o.pointer_events == seq![
            PointerEventView::Event(PlainPointerEvent::Motion { x, y }),
            PointerEventView::Event(PlainPointerEvent::Button { button, pressed }),
        ],
    ensures
        output_flow(o, p, kb).emitted == seq![
            UiEvent::PointerMoved(Position { x, y }),
            UiEvent::PointerButton {
                pos: Position { x, y },
                button: spec_pointer_button(button)->0,
                pressed,
                modifiers: kb_modifiers(kb),
            },
        ],
        !output_flow(o, p, kb).stopped,
        output_flow(o, p, kb).pointer == (Pointer { last_pointer_pos: Some(Position { x, y }), ..p }),
{
    let evs = o.pointer_events;
    let f1 = flush_events(start_flow(p), kb, o.name, evs, 1);
    assert(flush_events(start_flow(p), kb, o.name, evs, 0) == start_flow(p));
    assert(f1.emitted =~= seq![UiEvent::PointerMoved(Position { x, y })]);
    let f2 = flush_events(start_flow(p), kb, o.name, evs, 2);
    assert(f2 == flush_step(f1, kb, o.name, evs[1]));
    assert(f2.emitted =~= seq![
        UiEvent::PointerMoved(Position { x, y }),
        UiEvent::PointerButton {
            pos: Position { x, y },
            button: spec_pointer_button(button)->0,
            pressed,
            modifiers: kb_modifiers(kb),
        },
    ]);
}

/// Handing on an enter, leave or move of the pointer: an enter tells the
/// output's user interface that it has the pointer and makes it the
/// pointer's output, a leave tells it that it lost the pointer and leaves
/// the pointer on no output, a move reports the new position and remembers
/// it. Nothing else in the flow changes.
pub proof fn lemma_pointer_moves_reported(f: PointerFlow, kb: Option<Kb>, name: u32, pe: PlainPointerEvent)
    requires
        !(pe is Button),
    ensures
        ({
            let g = flush_step(f, kb, name, PointerEventView::Event(pe));
            &&& g.stopped == f.stopped && g.axis_reset == f.axis_reset && g.needs_keyboard == f.needs_keyboard
            &&& pe is Enter ==> g.emitted == f.emitted.push(UiEvent::WindowFocused(true))
                && g.pointer == (Pointer { focused_output: Some(name), ..f.pointer })
            &&& pe is Leave ==> g.emitted == f.emitted.push(UiEvent::WindowFocused(false))
                && g.pointer == (Pointer { focused_output: None, ..f.pointer })
            &&& pe matches PlainPointerEvent::Motion { x, y } ==> g.emitted == f.emitted.push(
                UiEvent::PointerMoved(Position { x, y }),
            ) && g.pointer == (Pointer { last_pointer_pos: Some(Position { x, y }), ..f.pointer })
        }),
{
}

/// The last frame of a finger or continuous scroll, which says where the
/// scroll came from and that it stopped but carries no amount, is handed on
/// as a scroll by nothing that has ended.
pub proof fn lemma_finger_stop_frame_ends(f: PointerFlow, kb: Option<Kb>, name: u32, src: AxisSource, axis: WireAxis)
    requires
        src is Finger || src is Continuous,
    ensures
        ({
            let fr = add_axis_event(
                add_axis_event(empty_frame(), AxisEvent::AxisSource { source: Some(src) }),
                AxisEvent::AxisStop { axis },
            );
            flush_step(f, kb, name, PointerEventView::Axis(fr)).emitted == f.emitted.push(
                UiEvent::MouseWheel {
                    unit: WheelUnit::Point,
                    delta: WheelDelta { x: 0, y: 0, divisor: 1 },
                    phase: WheelPhase::End,
                    modifiers: kb_modifiers(kb),
                },
            )
        }),
{
    let fr = add_axis_event(
        add_axis_event(empty_frame(), AxisEvent::AxisSource { source: Some(src) }),
        AxisEvent::AxisStop { axis },
    );
    assert(fr.available_modes == 0u8);
    assert(0u8 & 1u8 == 0u8) by (bit_vector);
    assert(fr.is_stop == Some(false));
    assert(spec_continuous_delta(fr) == zero_delta());
}

/// A scroll goes on (`Move`) unless a stop was seen; once a stop was seen it
/// ends (`End`) when one of the two amounts is zero or the stop was seen
/// twice, and goes on otherwise.
pub proof fn lemma_wheel_phase_ends(is_stop: Option<bool>, d: WheelDelta)
    ensures
        is_stop is None ==> spec_wheel_phase(is_stop, d) == WheelPhase::Move,
        is_stop is Some && (d.x == 0 || d.y == 0) ==> spec_wheel_phase(is_stop, d) == WheelPhase::End,
        is_stop == Some(true) ==> spec_wheel_phase(is_stop, d) == WheelPhase::End,
        is_stop == Some(false) && d.x != 0 && d.y != 0 ==> spec_wheel_phase(is_stop, d) == WheelPhase::Move,
{
}

/// A finger or continuous scroll whose frame saw a stop and carries no
/// amount on one of the two axes is reported as ended.
pub proof fn lemma_stop_frame_ends(f: PointerFlow, kb: Option<Kb>, name: u32, fr: AxisFrameView)
    requires
        !(fr.source matches Some(AxisSource::Wheel)),
        !(fr.source matches Some(AxisSource::WheelTilt)),
        fr.is_stop is Some,
        spec_continuous_delta(fr).x == 0 || spec_continuous_delta(fr).y == 0,
    ensures
        flush_step(f, kb, name, PointerEventView::Axis(fr)).emitted == f.emitted.push(
            UiEvent::MouseWheel {
                unit: WheelUnit::Point,
                delta: spec_continuous_delta(fr),
                phase: WheelPhase::End,
                modifiers: kb_modifiers(kb),
            },
        ),
{
    lemma_wheel_phase_ends(fr.is_stop, spec_continuous_delta(fr));
}

/// A key that the user interface knows, pressed or released on the output
/// the keyboard is on, appends a key event to that output that is pressed
/// exactly when the key went down; a release appends nothing else, a press
/// then appends the typed text when it is printable. The other outputs and
/// the events already waiting are left as they were.
pub proof fn lemma_key_keeps_pressed(s: StateView, sym: u32, pressed: bool, text: String)
    requires
        key_target(s) is Some,
        spec_keysym_key(sym) is Some,
    ensures
        ({
            let n = key_target(s)->0;
            let old_events = s.outputs[n].events_to_flush;
            let key = UiEvent::Key {
                key: spec_keysym_key(sym)->0,
                pressed,
                modifiers: keyboard_of(s)->0.key_mods,
            };
            let t = key_next(s, sym, pressed, text);
            &&& t.outputs.dom() == s.outputs.dom().insert(n)
            &&& forall|m: u32| m != n && s.outputs.contains_key(m) ==> #[trigger] t.outputs[m] == s.outputs[m]
            &&& !pressed ==> t.outputs[n].events_to_flush == old_events.push(key)
            &&& pressed && has_printable(text@) ==> t.outputs[n].events_to_flush == old_events.push(key).push(
                UiEvent::Text(text),
            )
            &&& pressed && !has_printable(text@) ==> t.outputs[n].events_to_flush == old_events.push(key)
            &&& t.new_events
        }),
{
    let n = key_target(s)->0;
    let old_events = s.outputs[n].events_to_flush;
    let key = UiEvent::Key { key: spec_keysym_key(sym)->0, pressed, modifiers: keyboard_of(s)->0.key_mods };
    let t = key_next(s, sym, pressed, text);
    assert(key_ui_events(sym, pressed, text, keyboard_of(s)->0.key_mods) =~= if pressed && has_printable(text@) {
        seq![key, UiEvent::Text(text)]
    } else {
        seq![key]
    });
    assert(old_events + seq![key] =~= old_events.push(key));
    assert(old_events + seq![key, UiEvent::Text(text)] =~= old_events.push(key).push(UiEvent::Text(text)));
}

/// A key that the user interface does not know produces no key event: a
/// release leaves the output's events as they were, a press adds only the
/// typed text, when it is printable.
pub proof fn lemma_unknown_key_types_only_text(s: StateView, sym: u32, pressed: bool, text: String)
    requires
        key_target(s) is Some,
        spec_keysym_key(sym) is None,
    ensures
        ({
            let n = key_target(s)->0;
            let old_events = s.outputs[n].events_to_flush;
            let t = key_next(s, sym, pressed, text);
            &&& pressed && has_printable(text@) ==> t.outputs[n].events_to_flush == old_events.push(UiEvent::Text(text))
            &&& !(pressed && has_printable(text@)) ==> t.outputs[n].events_to_flush == old_events
        }),
{
    let n = key_target(s)->0;
    let old_events = s.outputs[n].events_to_flush;
    assert(old_events + Seq::<UiEvent>::empty() =~= old_events);
    assert(old_events + Seq::<UiEvent>::empty().push(UiEvent::Text(text)) =~= old_events.push(UiEvent::Text(text)));
}

/// A seat's name and its capabilities are recorded independently: a name
/// leaves the capabilities as they were (and so whether the seat has a
/// keyboard), capabilities leave the name; the other seats and the rest of
/// the state do not change.
pub proof fn lemma_seat_fields_independent(s: StateView, global: u32, ev: SeatEvent)
    requires
        has_seat(s.seats, global),
    ensures
        ({
            let t = seat_next(s, global, ev);
            let before = s.seats[global];
            &&& t.seats.dom() == s.seats.dom()
            &&& forall|g: u32| g != global && s.seats.contains_key(g) ==> #[trigger] t.seats[g] == s.seats[g]
            &&& (StateView { seats: s.seats, ..t }) == s
            &&& ev matches SeatEvent::Name(n) ==> t.seats[global] == Seat { capabilities: before.capabilities, name: Some(n) }
            &&& ev matches SeatEvent::Name(_) ==> seat_has_keyboard(t.seats[global]) == seat_has_keyboard(before)
            &&& ev matches SeatEvent::Capabilities(c) ==> t.seats[global] == Seat { capabilities: Some(c), name: before.name }
            &&& ev is Other ==> t == s
        }),
{
    let t = seat_next(s, global, ev);
    assert(t.seats.dom() =~= s.seats.dom());
}

/// A seat that announces its capabilities and then its name keeps both, and
/// has a keyboard exactly when the capabilities say so.
pub proof fn lemma_capabilities_then_name(s: StateView, global: u32, bits: u32, n: String)
    requires
        has_seat(s.seats, global),
    ensures
        ({
            let t = seat_next(
                seat_next(s, global, SeatEvent::Capabilities(SeatCapabilities::Value(bits))),
                global,
                SeatEvent::Name(n),
            );
            &&& t.seats[global] == Seat { capabilities: Some(SeatCapabilities::Value(bits)), name: Some(n) }
            &&& seat_has_keyboard(t.seats[global]) == (bits & CAPABILITY_KEYBOARD == CAPABILITY_KEYBOARD)
        }),
{
}

impl State {
    /// An output whose lock surface is `surface`.
    pub fn surface_to_output(&self, surface: u32) -> (r: u32)
        requires
            surface_known(self@, surface),
        ensures
            surface_owner(self@.outputs, surface, r),
    {
        let names = self.output_names();
        let mut i: usize = 0;
        while i < names.len()
            invariant
                i <= names.len(),
                is_output_order(self@.outputs, names@),
                surface_known(self@, surface),
                forall|j: int| 0 <= j < i ==> !surface_owner(self@.outputs, surface, #[trigger] names@[j]),
            decreases names.len() - i,
        {
            let n = names[i];
            assert(names@.contains(n));
            let o = self.outputs.get(&n).unwrap();
            assert(self@.outputs[n] == o@);
            if o.surface_info.get().surface == surface {
                return n;
            }
            i = i + 1;
        }
        proof {
            let w = choose|w: u32| #[trigger] surface_owner(self@.outputs, surface, w);
            assert(names@.contains(w));
            let j = choose|j: int| 0 <= j < names@.len() && names@[j] == w;
            assert(!surface_owner(self@.outputs, surface, names@[j]));
        }
        0
    }

    /// Whether `surface` is the lock surface of an output, every output having
    /// its lock surface (see `surface_known`).
    pub fn knows_surface(&self, surface: u32) -> (r: bool)
        ensures
            r == surface_known(self@, surface),
    {
        let names = self.output_names();
        let mut found = false;
        let mut i: usize = 0;
        while i < names.len()
            invariant
                i <= names.len(),
                is_output_order(self@.outputs, names@),
                forall|j: int| 0 <= j < i ==> (#[trigger] self@.outputs[names@[j]]).surface_info is Some,
                found == (exists|j: int| 0 <= j < i && #[trigger] surface_owner(self@.outputs, surface, names@[j])),
            decreases names.len() - i,
        {
            let n = names[i];
            assert(names@.contains(n));
            let o = self.outputs.get(&n).unwrap();
            assert(self@.outputs[n] == o@);
            if !o.surface_info.is_init() {
                assert(!surfaces_ready(self@.outputs));
                return false;
            }
            let here = o.surface_info.get().surface;
            if here == surface {
                found = true;
                assert(surface_owner(self@.outputs, surface, names@[i as int]));
            }
            proof {
                if !found {
                    assert forall|j: int| 0 <= j < i + 1 implies !#[trigger] surface_owner(self@.outputs, surface, names@[j]) by {
                        if j < i {
                        }
                    }
                } else if here != surface {
                    let j = choose|j: int| 0 <= j < i && #[trigger] surface_owner(self@.outputs, surface, names@[j]);
                    assert(0 <= j < i + 1);
                }
            }
            i = i + 1;
        }
        proof {
            assert forall|n: u32| #[trigger] self@.outputs.contains_key(n) implies self@.outputs[n].surface_info is Some by {
                assert(names@.contains(n));
                let j = choose|j: int| 0 <= j < names@.len() && names@[j] == n;
            }
            if found {
                let j = choose|j: int| 0 <= j < names@.len() && #[trigger] surface_owner(self@.outputs, surface, names@[j]);
                assert(surface_owner(self@.outputs, surface, names@[j]));
            } else {
                if has_surface(self@.outputs, surface) {
                    let w = choose|w: u32| #[trigger] surface_owner(self@.outputs, surface, w);
                    assert(names@.contains(w));
                    let j = choose|j: int| 0 <= j < names@.len() && names@[j] == w;
                    assert(surface_owner(self@.outputs, surface, names@[j]));
                }
            }
        }
        found
    }

    /// Handles a pointer event (see `pointer_next`): events other than the
    /// end of a frame wait with the output that the pointer was last on;
    /// scroll events of a frame are gathered into one scroll.
    pub fn pointer_event(&mut self, ev: WirePointerEvent)
        requires
            old(self)@.wf(),
            pointer_event_allowed(old(self)@, ev),
        ensures
            exists|target: u32, order: Seq<u32>|
                pointer_choice_ok(old(self)@, ev, target, order) && final(self)@ == pointer_next(
                    old(self)@,
                    ev,
                    target,
                    order,
                ),
            final(self)@.wf(),
    {
        let ghost s0 = self@;
        match ev {
            WirePointerEvent::Frame => {
                let order = self.flush_frame();
                assert(pointer_choice_ok(s0, ev, 0, order@) && self@ == pointer_next(s0, ev, 0, order@));
            },
            WirePointerEvent::Plain(pe) => {
                let mut p = self.input.get().pointer.unwrap();
                let n = match pe {
                    PlainPointerEvent::Enter { surface, .. } => self.surface_to_output(surface),
                    _ => p.last_focused_output_in_events.unwrap(),
                };
                let mut o = self.take_output(n);
                o.pointer_events.push(PointerEvent::Event(pe));
                let name = o.name;
                assert(o@.pointer_events =~= s0.outputs[n].pointer_events.push(PointerEventView::Event(pe)));
                self.put_output(n, o);
                assert(self@.outputs =~= s0.outputs.insert(n, push_pending(s0.outputs[n], pe)));
                match pe {
                    PlainPointerEvent::Enter { .. } => {
                        p.last_focused_output_in_events = Some(name);
                        self.input.get_mut().pointer = Some(p);
                    },
                    PlainPointerEvent::Leave { .. } => {
                        p.last_focused_output_in_events = None;
                        self.input.get_mut().pointer = Some(p);
                    },
                    _ => {},
                }
                assert(pointer_choice_ok(s0, ev, n, Seq::empty()) && self@ == pointer_next(s0, ev, n, Seq::empty()));
            },
            WirePointerEvent::Axis(a) => {
                let n = self.input.get().pointer.unwrap().last_focused_output_in_events.unwrap();
                let mut o = self.take_output(n);
                let ghost ov = s0.outputs[n];
                let mut frame = match o.last_pointer_axis_event {
                    Some(x) => {
                        if x < o.pointer_events.len() {
                            match o.pointer_events.remove(x) {
                                PointerEvent::Axis(f) => f,
                                PointerEvent::Event(_) => {
                                    assert(false);
                                    AxisFrame::new()
                                },
                            }
                        } else {
                            AxisFrame::new()
                        }
                    },
                    None => AxisFrame::new(),
                };
                let new_index = o.pointer_events.len();
                frame.add(a);
                o.pointer_events.push(PointerEvent::Axis(frame));
                o.last_pointer_axis_event = Some(new_index);
                assert(o@.pointer_events =~= accumulate_axis(ov, a).pointer_events);
                self.put_output(n, o);
                assert(self@.outputs =~= s0.outputs.insert(n, accumulate_axis(ov, a)));
                assert(pointer_choice_ok(s0, ev, n, Seq::empty()) && self@ == pointer_next(s0, ev, n, Seq::empty()));
            },
        }
    }

    /// Handles a keyboard event other than a key press (see `keyboard_next`).
    pub fn keyboard_event(&mut self, ev: KeyboardEvent)
        requires
            old(self)@.wf(),
            keyboard_event_allowed(old(self)@, ev),
        ensures
            exists|target: u32|
                keyboard_choice_ok(old(self)@, ev, target) && final(self)@ == keyboard_next(old(self)@, ev, target),
            final(self)@.wf(),
    {
        let ghost s0 = self@;
        match ev {
            KeyboardEvent::Keymap => {
                let mut kb = self.input.get().keyboard.unwrap();
                kb.has_keymap = true;
                self.input.get_mut().keyboard = Some(kb);
                self.new_events = true;
                assert(self@ == keyboard_next(s0, ev, 0));
            },
            KeyboardEvent::Enter { surface } | KeyboardEvent::Leave { surface } => {
                let entered = match ev {
                    KeyboardEvent::Enter { .. } => true,
                    _ => false,
                };
                let n = self.surface_to_output(surface);
                let mut o = self.take_output(n);
                o.events_to_flush.push(UiEvent::WindowFocused(entered));
                let name = o.name;
                self.put_output(n, o);
                assert(self@.outputs =~= s0.outputs.insert(n, push_ui(s0.outputs[n], UiEvent::WindowFocused(entered))));
                let mut kb = self.input.get().keyboard.unwrap();
                kb.focused_output = if entered {
                    Some(name)
                } else {
                    None
                };
                self.input.get_mut().keyboard = Some(kb);
                self.new_events = true;
                assert(keyboard_choice_ok(s0, ev, n) && self@ == keyboard_next(s0, ev, n));
            },
            _ => {
                self.new_events = true;
                assert(self@ == keyboard_next(s0, ev, 0));
            },
        }
    }

    /// Handles the keymap that the compositor shares, as NUL-terminated bytes:
    /// when they are UTF-8 text the keyboard is marked as having a keymap and
    /// the text is returned for compiling; otherwise nothing changes.
    pub fn keymap_event(&mut self, data: &[u8]) -> (r: Option<String>)
        requires
            old(self)@.wf(),
            data@.len() >= 1,
            keyboard_event_allowed(old(self)@, KeyboardEvent::Keymap),
        ensures
            r is Some <==> valid_utf8(data@.drop_last()),
            r matches Some(t) ==> encode_utf8(t@) == data@.drop_last(),
            r is None ==> final(self)@ == old(self)@,
            r is Some ==> final(self)@ == keyboard_next(old(self)@, KeyboardEvent::Keymap, 0),
            final(self)@.wf(),
    {
        let text = keymap_text(data);
        if text.is_some() {
            self.keyboard_event(KeyboardEvent::Keymap);
        }
        text
    }

    /// The output that key presses go to: the one the keyboard entered last,
    /// if there is a keyboard and it has not left since.
    pub fn key_focus(&self) -> (r: Option<u32>)
        requires
            self@.input is Some,
        ensures
            r == key_target(self@),
    {
        match self.input.get().keyboard {
            Some(kb) => kb.focused_output,
            None => None,
        }
    }

    /// Handles a key press or release (see `key_next`); `sym` is the keysym
    /// of the key and `text` the text it types, both under the current
    /// keymap. Without a keyboard on an output nothing changes.
    pub fn key_event(&mut self, pressed: bool, sym: u32, text: String)
        requires
            old(self)@.wf(),
            old(self)@.input is Some,
            key_target(old(self)@) matches Some(n) ==> has_output(old(self)@.outputs, n),
        ensures
            final(self)@ == key_next(old(self)@, sym, pressed, text),
            final(self)@.wf(),
    {
        let ghost s0 = self@;
        let n = match self.key_focus() {
            Some(n) => n,
            None => return,
        };
        let kb = self.input.get().keyboard.unwrap();
        let mut o = self.take_output(n);
        let ghost old_events = o@.events_to_flush;
        let mods = kb.key_mods;
        let is_printable = printable(text.as_str());
        if let Some(key) = keysym_key(sym) {
            o.events_to_flush.push(UiEvent::Key { key, pressed, modifiers: mods });
        }
        if pressed && is_printable {
            o.events_to_flush.push(UiEvent::Text(text));
        }
        assert(o@.events_to_flush =~= old_events + key_ui_events(sym, pressed, text, mods));
        self.put_output(n, o);
        self.new_events = true;
        assert(self@.outputs =~= key_next(s0, sym, pressed, text).outputs);
    }

    /// Takes the events that wait for the user interface of output `name`,
    /// leaving none.
    pub fn take_ui_events(&mut self, name: u32) -> (r: Vec<UiEvent>)
        requires
            old(self)@.wf(),
            has_output(old(self)@.outputs, name),
        ensures
            r@ == old(self)@.output(name).events_to_flush,
            final(self)@ == (StateView {
                outputs: old(self)@.outputs.insert(
                    name,
                    OutputView { events_to_flush: Seq::empty(), ..old(self)@.output(name) },
                ),
                ..old(self)@
            }),
            final(self)@.wf(),
    {
        let mut o = self.take_output(name);
        let mut events: Vec<UiEvent> = Vec::new();
        std::mem::swap(&mut events, &mut o.events_to_flush);
        self.put_output(name, o);
        assert(self@.outputs =~= old(self)@.outputs.insert(
            name,
            OutputView { events_to_flush: Seq::empty(), ..old(self)@.output(name) },
        ));
        events
    }

    /// Handles an event of the seat announced under `global` (see
    /// `seat_next`).
    pub fn seat_event(&mut self, global: u32, ev: SeatEvent)
        requires
            old(self)@.wf(),
            has_seat(old(self)@.seats, global),
        ensures
            final(self)@ == seat_next(old(self)@, global, ev),
            final(self)@.wf(),
    {
        let ghost s0 = self@;
        match ev {
            SeatEvent::Capabilities(c) => {
                let mut seat = self.seats.remove(&global).unwrap();
                seat.capabilities = Some(c);
                self.seats.insert(global, seat);
            },
            SeatEvent::Name(n) => {
                let mut seat = self.seats.remove(&global).unwrap();
                seat.name = Some(n);
                self.seats.insert(global, seat);
            },
            SeatEvent::Other => {},
        }
        assert(self@.seats =~= seat_next(s0, global, ev).seats);
    }

    /// Whether the pointer event can be handled in this state (see
    /// `pointer_event_allowed`).
    pub fn pointer_event_ok(&self, ev: &WirePointerEvent) -> (r: bool)
        requires
            self@.wf(),
        ensures
            r == pointer_event_allowed(self@, *ev),
    {
        if !self.input.is_init() {
            return false;
        }
        let p = match self.input.get().pointer {
            Some(p) => p,
            None => return false,
        };
        match ev {
            WirePointerEvent::Plain(PlainPointerEvent::Enter { surface, .. }) => self.knows_surface(*surface),
            WirePointerEvent::Frame => {
                self.input.get().keyboard.is_some() || !self.frame_needs_keyboard()
            },
            _ => {
                let n = match p.last_focused_output_in_events {
                    Some(n) => n,
                    None => return false,
                };
                let o = match self.outputs.get(&n) {
                    Some(o) => o,
                    None => return false,
                };
                assert(self@.outputs[n] == o@);
                match ev {
                    WirePointerEvent::Axis(_) => {
                        match o.last_pointer_axis_event {
                            Some(x) => if x < o.pointer_events.len() {
                                match &o.pointer_events[x] {
                                    PointerEvent::Axis(_) => true,
                                    PointerEvent::Event(_) => false,
                                }
                            } else {
                                true
                            },
                            None => true,
                        }
                    },
                    _ => true,
                }
            },
        }
    }

    /// Whether the pending events of the output would reach a scroll before
    /// an unknown button (see `output_needs_keyboard`).
    fn output_reaches_scroll(o: &Output) -> (r: bool)
        ensures
            r == output_needs_keyboard(o@),
    {
        let pending = &o.pointer_events;
        let ghost evs = o@.pointer_events;
        let mut flow = Flow {
            emitted: Vec::new(),
            pointer: Pointer { focused_output: None, last_focused_output_in_events: None, last_pointer_pos: None },
            axis_reset: false,
            stopped: false,
            needs_keyboard: Ghost(false),
        };
        let mut needs = false;
        let mut k: usize = 0;
        while k < pending.len() && !flow.stopped
            invariant
                k <= pending.len(),
                pending@.map_values(|e: PointerEvent| e@) == evs,
                flow@ == flush_events(start_flow(no_pointer()), None, o.name, evs, k as int),
                needs == flow@.needs_keyboard,
            decreases pending.len() - k,
        {
            assert(pending@[k as int]@ == evs[k as int]);
            let scroll = match &pending[k] {
                PointerEvent::Axis(fr) => match fr.source {
                    Some(AxisSource::WheelTilt) => false,
                    _ => true,
                },
                _ => false,
            };
            flush_one(&mut flow, &pending[k], None, o.name);
            if scroll {
                needs = true;
            }
            k = k + 1;
        }
        proof {
            if flow.stopped {
                lemma_events_stopped(start_flow(no_pointer()), None, o.name, evs, k as int, evs.len() as int);
            }
        }
        needs
    }

    /// Whether the end of a pointer frame may hand on a scroll, which takes
    /// the keyboard's modifiers (see `frame_needs_keyboard_spec`).
    pub fn frame_needs_keyboard(&self) -> (r: bool)
        ensures
            r == frame_needs_keyboard_spec(self@),
    {
        let names = self.output_names();
        let mut i: usize = 0;
        while i < names.len()
            invariant
                i <= names.len(),
                is_output_order(self@.outputs, names@),
                forall|j: int| 0 <= j < i ==> !output_needs_keyboard(#[trigger] self@.outputs[names@[j]]),
            decreases names.len() - i,
        {
            let n = names[i];
            assert(names@.contains(n));
            let o = self.outputs.get(&n).unwrap();
            assert(self@.outputs[n] == o@);
            if Self::output_reaches_scroll(o) {
                return true;
            }
            i = i + 1;
        }
        proof {
            if frame_needs_keyboard_spec(self@) {
                let w = choose|w: u32| #[trigger] self@.outputs.contains_key(w) && output_needs_keyboard(self@.outputs[w]);
                assert(names@.contains(w));
                let j = choose|j: int| 0 <= j < names@.len() && names@[j] == w;
                assert(!output_needs_keyboard(self@.outputs[names@[j]]));
            }
        }
        false
    }

    /// Whether the keyboard event can be handled in this state (see
    /// `keyboard_event_allowed`).
    pub fn keyboard_event_ok(&self, ev: KeyboardEvent) -> (r: bool)
        ensures
            r == keyboard_event_allowed(self@, ev),
    {
        if !self.input.is_init() {
            return false;
        }
        let has_kb = self.input.get().keyboard.is_some();
        match ev {
            KeyboardEvent::Keymap => has_kb,
            KeyboardEvent::Enter { surface } | KeyboardEvent::Leave { surface } => has_kb && self.knows_surface(surface),
            _ => true,
        }
    }

    /// Hands the pending pointer events of every output on to its user
    /// interface; returns the order in which the outputs were walked.
    fn flush_frame(&mut self) -> (order: Vec<u32>)
        requires
            old(self)@.wf(),
            old(self)@.input matches Some(inp) && inp.pointer is Some,
        ensures
            is_output_order(old(self)@.outputs, order@),
            final(self)@ == frame_next(old(self)@, order@),
            final(self)@.wf(),
    {
        let kb = self.input.get().keyboard;
        let mut pointer = self.input.get().pointer.unwrap();
        let ghost s0 = self@;
        let ghost p0 = pointer_of(s0);
        let order = self.output_names();
        proof {
            assert forall|j: int| 0 <= j < order@.len() implies s0.outputs.contains_key(#[trigger] order@[j]) by {
                assert(order@.contains(order@[j]));
            }
        }
        let mut j: usize = 0;
        while j < order.len()
            invariant
                j <= order.len(),
                is_output_order(s0.outputs, order@),
                forall|i: int| 0 <= i < order@.len() ==> s0.outputs.contains_key(#[trigger] order@[i]),
                kb == keyboard_of(s0),
                p0 == pointer_of(s0),
                s0 == old(self)@,
                s0.wf(),
                s0.input matches Some(inp) && inp.pointer is Some,
                !flush_outputs(s0.outputs, order@, p0, kb, j as int).stopped,
                self@.outputs == flush_outputs(s0.outputs, order@, p0, kb, j as int).outputs,
                pointer == flush_outputs(s0.outputs, order@, p0, kb, j as int).pointer,
                self@ == (StateView { outputs: self@.outputs, ..s0 }),
            decreases order.len() - j,
        {
            let ghost g = flush_outputs(s0.outputs, order@, p0, kb, j as int);
            let key = order[j];
            proof {
                lemma_flush_outputs_shape(s0.outputs, order@, p0, kb, j as int);
            }
            assert(has_output(self@.outputs, key));
            let mut o = self.take_output(key);
            let ghost ov = g.outputs[key];
            let mut pending: Vec<PointerEvent> = Vec::new();
            std::mem::swap(&mut pending, &mut o.pointer_events);
            let name = o.name;
            let ghost evs = ov.pointer_events;
            let mut flow = Flow {
                emitted: Vec::new(),
                pointer,
                axis_reset: false,
                stopped: false,
                needs_keyboard: Ghost(false),
            };
            let mut k: usize = 0;
            while k < pending.len() && !flow.stopped
                invariant
                    k <= pending.len(),
                    pending@.map_values(|e: PointerEvent| e@) == evs,
                    flow@ == flush_events(start_flow(g.pointer), kb, name, evs, k as int),
                decreases pending.len() - k,
            {
                assert(pending@[k as int]@ == evs[k as int]);
                flush_one(&mut flow, &pending[k], kb, name);
                k = k + 1;
            }
            proof {
                if flow.stopped {
                    lemma_events_stopped(start_flow(g.pointer), kb, name, evs, k as int, evs.len() as int);
                }
            }
            assert(flow@ == output_flow(ov, g.pointer, kb));
            let ghost fv = flow@;
            o.events_to_flush.append(&mut flow.emitted);
            if flow.axis_reset {
                o.last_pointer_axis_event = None;
            }
            pointer = flow.pointer;
            assert(o@.pointer_events =~= Seq::<PointerEventView>::empty());
            assert(o@.events_to_flush =~= ov.events_to_flush + fv.emitted);
            assert(o@ == flushed_output(ov, fv));
            self.put_output(key, o);
            assert(self@.outputs =~= flush_outputs(s0.outputs, order@, p0, kb, j + 1).outputs);
            if flow.stopped {
                self.input.get_mut().pointer = Some(pointer);
                proof {
                    assert(flush_outputs(s0.outputs, order@, p0, kb, j + 1).stopped);
                    lemma_outputs_stopped(s0.outputs, order@, p0, kb, j + 1, order@.len() as int);
                    lemma_flush_outputs_shape(s0.outputs, order@, p0, kb, order@.len() as int);
                }
                return order;
            }
            j = j + 1;
        }
        self.input.get_mut().pointer = Some(pointer);
        self.new_events = true;
        proof {
            lemma_flush_outputs_shape(s0.outputs, order@, p0, kb, order@.len() as int);
        }
        order
    }
}

} // verus!
