pub mod events;
pub mod state;
pub mod utils;

use vstd::prelude::*;

use crate::events::UiEvent;
use crate::state::seat::{PointerEvent, PointerEventView};
use crate::utils::late::Late;

verus! {

/// Capability bit that a seat announces when it has a pointer.
pub const CAPABILITY_POINTER: u32 = 1;

/// Capability bit that a seat announces when it has a keyboard.
pub const CAPABILITY_KEYBOARD: u32 = 2;

/// Capability bit that a seat announces when it has a touch device.
pub const CAPABILITY_TOUCH: u32 = 4;

/// The capabilities that a seat announced: either a set of known capability
/// bits, or a value with bits that the protocol does not define.
#[derive(Clone, Copy, PartialEq, Eq, Debug, Structural)]
pub enum SeatCapabilities {
    Value(u32),
    Unknown(u32),
}

/// A seat that the compositor announced; the seats are kept under the
/// registry names under which they were announced.
pub struct Seat {
    pub capabilities: Option<SeatCapabilities>,
    pub name: Option<String>,
}

/// The lock surface that belongs to an output: the protocol id of its
/// `wl_surface`, and the size that the compositor configured for it.
pub struct SurfaceInfo {
    pub surface: u32,
    pub width: Late<u32>,
    pub height: Late<u32>,
}

pub struct SurfaceInfoView {
    pub surface: u32,
    pub width: Option<u32>,
    pub height: Option<u32>,
}

impl View for SurfaceInfo {
    type V = SurfaceInfoView;

    open spec fn view(&self) -> SurfaceInfoView {
        SurfaceInfoView { surface: self.surface, width: self.width@, height: self.height@ }
    }
}

/// An output (monitor) that the compositor announced, with the events that
/// wait to be handed to its user interface.
pub struct Output {
    pub events_to_flush: Vec<UiEvent>,
    pub pointer_events: Vec<PointerEvent>,
    pub last_pointer_axis_event: Option<usize>,
    pub surface_info: Late<SurfaceInfo>,
    pub name: u32,
    pub display_name: Late<String>,
    pub configured: bool,
}

pub struct OutputView {
    pub events_to_flush: Seq<UiEvent>,
    pub pointer_events: Seq<PointerEventView>,
    pub last_pointer_axis_event: Option<usize>,
    pub surface_info: Option<SurfaceInfoView>,
    pub name: u32,
    pub display_name: Option<String>,
    pub configured: bool,
}

pub open spec fn surface_view(s: Option<SurfaceInfo>) -> Option<SurfaceInfoView> {
    match s {
        Some(info) => Some(info@),
        None => None,
    }
}

impl View for Output {
    type V = OutputView;

    open spec fn view(&self) -> OutputView {
        OutputView {
            events_to_flush: self.events_to_flush@,
            pointer_events: self.pointer_events@.map_values(|e: PointerEvent| e@),
            last_pointer_axis_event: self.last_pointer_axis_event,
            surface_info: surface_view(self.surface_info@),
            name: self.name,
            display_name: self.display_name@,
            configured: self.configured,
        }
    }
}

impl Output {
    /// An output that has just been announced under the registry name `name`:
    /// no surface, no events, not configured.
    pub fn new_uninit(name: u32) -> (r: Self)
        ensures
            r@ == (OutputView {
                events_to_flush: Seq::empty(),
                pointer_events: Seq::empty(),
                last_pointer_axis_event: None,
                surface_info: None,
                name: name,
                display_name: None,
                configured: false,
            }),
    {
        let r = Output {
            events_to_flush: Vec::new(),
            pointer_events: Vec::new(),
            last_pointer_axis_event: None,
            surface_info: Late::uninit(),
            name,
            display_name: Late::uninit(),
            configured: false,
        };
        assert(r@.pointer_events =~= Seq::<PointerEventView>::empty());
        r
    }
}

/// What the user interface of one output asks for after a frame.
pub enum TryExit {
    Stay,
    Force,
    PasswdCheck(String),
}

/// What the lock screen does after a frame has been drawn on every output.
pub enum UiDecision {
    /// Draw another frame.
    Continue,
    /// Leave the loop and unlock.
    Exit,
    /// Check the password; leave the loop and unlock if it is right.
    Authenticate(String),
}

/// The password of the last output that asked for a password check.
pub open spec fn last_password(exits: Seq<TryExit>) -> Option<String>
    decreases exits.len(),
{
    if exits.len() == 0 {
        None
    } else {
        match exits.last() {
            TryExit::PasswdCheck(p) => Some(p),
            _ => last_password(exits.drop_last()),
        }
    }
}

pub open spec fn some_force(exits: Seq<TryExit>) -> bool {
    exists|i: int| 0 <= i < exits.len() && #[trigger] exits[i] is Force
}

/// The decision after a frame: leave as soon as one output forced it;
/// otherwise check the password that the last output asking for it gave.
pub open spec fn spec_ui_decision(exits: Seq<TryExit>) -> UiDecision {
    if some_force(exits) {
        UiDecision::Exit
    } else {
        match last_password(exits) {
            Some(p) => UiDecision::Authenticate(p),
            None => UiDecision::Continue,
        }
    }
}

/// Combines what the outputs asked for in one frame, in the order in which
/// they were drawn.
pub fn ui_decision(exits: &Vec<TryExit>) -> (r: UiDecision)
    ensures
        r == spec_ui_decision(exits@),
{
    let mut should_break = false;
    let mut should_auth: Option<String> = None;
    let mut i: usize = 0;
    while i < exits.len()
        invariant
            i <= exits.len(),
            should_break == some_force(exits@.take(i as int)),
            should_auth == last_password(exits@.take(i as int)),
        decreases exits.len() - i,
    {
        proof {
            assert(exits@.take(i + 1).drop_last() =~= exits@.take(i as int));
            assert(exits@.take(i + 1).last() == exits@[i as int]);
        }
        match &exits[i] {
            TryExit::Stay => {},
            TryExit::Force => {
                should_break = true;
                assert(exits@.take(i + 1)[i as int] is Force);
            },
            TryExit::PasswdCheck(pwd) => {
                should_auth = Some(pwd.clone());
            },
        }
        proof {
            if !(exits@[i as int] is Force) {
                if some_force(exits@.take(i + 1)) {
                    let k = choose|k: int| 0 <= k < i + 1 && #[trigger] exits@.take(i + 1)[k] is Force;
                    assert(exits@.take(i as int)[k] is Force);
                }
            }
        }
        i = i + 1;
    }
    assert(exits@.take(exits.len() as int) =~= exits@);
    if should_break {
        UiDecision::Exit
    } else {
        match should_auth {
            Some(p) => UiDecision::Authenticate(p),
            None => UiDecision::Continue,
        }
    }
}

/// When one output forces the exit, the loop ends, whatever the other outputs
/// asked for.
pub proof fn lemma_force_wins(exits: Seq<TryExit>, i: int)
    requires
        0 <= i < exits.len(),
        exits[i] is Force,
    ensures
        spec_ui_decision(exits) == UiDecision::Exit,
{
    assert(some_force(exits));
}

/// When no output forces the exit, the password that is checked is the one of
/// the last output that asked for a check.
pub proof fn lemma_last_password_wins(exits: Seq<TryExit>, i: int, p: String)
    requires
        0 <= i < exits.len(),
        exits[i] == TryExit::PasswdCheck(p),
        forall|j: int| i < j < exits.len() ==> !(#[trigger] exits[j] is PasswdCheck),
        !some_force(exits),
    ensures
        spec_ui_decision(exits) == UiDecision::Authenticate(p),
{
    lemma_last_password(exits, i, p);
}

proof fn lemma_last_password(exits: Seq<TryExit>, i: int, p: String)
    requires
        0 <= i < exits.len(),
        exits[i] == TryExit::PasswdCheck(p),
        forall|j: int| i < j < exits.len() ==> !(#[trigger] exits[j] is PasswdCheck),
    ensures
        last_password(exits) == Some(p),
    decreases exits.len(),
{
    if i < exits.len() - 1 {
        assert(!(exits[exits.len() - 1] is PasswdCheck));
        let rest = exits.drop_last();
        assert forall|j: int| i < j < rest.len() implies !(#[trigger] rest[j] is PasswdCheck) by {
            assert(rest[j] == exits[j]);
        }
        lemma_last_password(rest, i, p);
    }
}

/// When no output forces the exit or asks for a password, another frame is
/// drawn.
pub proof fn lemma_nothing_asked_continues(exits: Seq<TryExit>)
    requires
        forall|j: int| 0 <= j < exits.len() ==> #[trigger] exits[j] is Stay,
    ensures
        spec_ui_decision(exits) == UiDecision::Continue,
    decreases exits.len(),
{
    if exits.len() > 0 {
        let rest = exits.drop_last();
        assert forall|j: int| 0 <= j < rest.len() implies #[trigger] rest[j] is Stay by {
            assert(rest[j] == exits[j]);
        }
        lemma_nothing_asked_continues(rest);
        assert(exits.last() is Stay);
    }
    assert(!some_force(exits));
}

/// An output is drawn again when input arrived since the start or when its
/// user interface asked for a repaint.
pub fn needs_redraw(new_events: bool, repaint_requested: bool) -> (r: bool)
    ensures
        r == (new_events || repaint_requested),
{
    new_events || repaint_requested
}

} // verus!
