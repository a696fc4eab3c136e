use vstd::prelude::*;

use crate::state::{has_output, has_seat, State, StateView};
use crate::{Output, OutputView, Seat};

verus! {

broadcast use vstd::std_specs::hash::group_hash_axioms;

/// The global that has to be bound after the compositor announced one, and
/// at which version.
#[derive(Clone, Copy, PartialEq, Eq, Debug, Structural)]
pub enum BindRequest {
    Compositor { version: u32 },
    Seat { version: u32 },
    LockManager { version: u32 },
    Output { version: u32 },
    Shm { version: u32 },
    Ignore,
}

/// What follows when the compositor removes a global.
#[derive(Clone, Copy, PartialEq, Eq, Debug, Structural)]
pub enum GlobalRemoval {
    /// A seat went away; its proxy is released.
    ReleaseSeat,
    /// A global that the lock screen needs went away; it shuts down.
    Shutdown,
}

pub open spec fn min_u32(a: u32, b: u32) -> u32 {
    if a <= b {
        a
    } else {
        b
    }
}

pub open spec fn new_output_view(name: u32) -> OutputView {
    OutputView {
        events_to_flush: Seq::empty(),
        pointer_events: Seq::empty(),
        last_pointer_axis_event: None,
        surface_info: None,
        name: name,
        display_name: None,
        configured: false,
    }
}

pub open spec fn new_seat() -> Seat {
    Seat { capabilities: None, name: None }
}

/// The state after the compositor announced the global `name` of the
/// interface `interface` at version `version`, and what has to be bound. A
/// seat or output announced under a name that is already known replaces the
/// one kept under it.
pub open spec fn global_next(s: StateView, name: u32, interface: Seq<char>, version: u32) -> (StateView, BindRequest) {
    if interface == "wl_compositor"@ {
        (
            StateView { compositor: Some(name), ..s },
            BindRequest::Compositor { version: min_u32(State::MIN_WL_COMPOSITOR_VER, version) },
        )
    } else if interface == "wl_seat"@ {
        (
            StateView { seats: s.seats.insert(name, new_seat()), ..s },
            BindRequest::Seat { version: min_u32(State::MIN_WL_SEAT_VER, version) },
        )
    } else if interface == "ext_session_lock_manager_v1"@ {
        (StateView { lock_manager: Some(name), ..s }, BindRequest::LockManager { version: 1 })
    } else if interface == "wl_output"@ {
        (
            StateView { outputs: s.outputs.insert(name, new_output_view(name)), ..s },
            BindRequest::Output { version: min_u32(version, 4) },
        )
    } else if interface == "wl_shm"@ {
        (StateView { shm: Some(name), ..s }, BindRequest::Shm { version: State::MIN_WL_SHM_VER })
    } else {
        (s, BindRequest::Ignore)
    }
}

/// The state after the compositor removed the global `name`: a seat is
/// forgotten; anything else makes the lock screen exit with status 1.
pub open spec fn global_remove_next(s: StateView, name: u32) -> (StateView, GlobalRemoval) {
    if has_seat(s.seats, name) {
        (StateView { seats: s.seats.remove(name), ..s }, GlobalRemoval::ReleaseSeat)
    } else {
        (StateView { exit: Some(1), ..s }, GlobalRemoval::Shutdown)
    }
}

/// A seat that the compositor announces and then removes again is released,
/// and the other seats are left as they were.
pub proof fn lemma_seat_added_then_removed(s: StateView, name: u32, version: u32)
    ensures
        ({
            let (s1, b) = global_next(s, name, "wl_seat"@, version);
            let (s2, r) = global_remove_next(s1, name);
            &&& b == BindRequest::Seat { version: min_u32(State::MIN_WL_SEAT_VER, version) }
            &&& r == GlobalRemoval::ReleaseSeat
            &&& s2 == (StateView { seats: s.seats.remove(name), ..s })
        }),
{
    reveal_strlit("wl_seat");
    reveal_strlit("wl_compositor");
    assert("wl_seat"@.len() == 7);
    assert("wl_compositor"@.len() == 13);
    let (s1, b) = global_next(s, name, "wl_seat"@, version);
    assert(s1.seats.remove(name) =~= s.seats.remove(name));
}

/// An output that the compositor announces is found under its name, as a
/// fresh output: no surface, no pending events, not configured.
pub proof fn lemma_output_announced(s: StateView, name: u32, version: u32)
    requires
        s.wf(),
    ensures
        ({
            let (s1, b) = global_next(s, name, "wl_output"@, version);
            &&& b == BindRequest::Output { version: min_u32(version, 4) }
            &&& s1.wf()
            &&& has_output(s1.outputs, name)
            &&& s1.output(name) == new_output_view(name)
        }),
{
    reveal_strlit("wl_output");
    reveal_strlit("wl_compositor");
    reveal_strlit("wl_seat");
    reveal_strlit("ext_session_lock_manager_v1");
    assert("wl_output"@.len() == 9);
    assert("wl_compositor"@.len() == 13);
    assert("wl_seat"@.len() == 7);
    assert("ext_session_lock_manager_v1"@.len() == 27);
}

/// When the compositor removes a global under which a seat is kept, that
/// seat is released and forgotten, whatever it announced before; nothing
/// else changes, and in particular the lock screen does not exit.
pub proof fn lemma_seat_removed_released(s: StateView, name: u32)
    requires
        has_seat(s.seats, name),
    ensures
        global_remove_next(s, name).1 == GlobalRemoval::ReleaseSeat,
        !global_remove_next(s, name).0.seats.contains_key(name),
        forall|g: u32| g != name && s.seats.contains_key(g) ==> #[trigger] global_remove_next(s, name).0.seats.contains_key(g)
            && global_remove_next(s, name).0.seats[g] == s.seats[g],
        global_remove_next(s, name).0.seats.dom() == s.seats.dom().remove(name),
        global_remove_next(s, name).0.exit == s.exit,
        (StateView { seats: s.seats, ..global_remove_next(s, name).0 }) == s,
{
    assert(global_remove_next(s, name).0.seats.dom() =~= s.seats.dom().remove(name));
}

/// When the compositor removes a global that is not a seat, the lock screen
/// is told to exit with status 1.
pub proof fn lemma_core_global_removed(s: StateView, name: u32)
    requires
        !has_seat(s.seats, name),
    ensures
        global_remove_next(s, name).0.exit == Some(1u32),
        global_remove_next(s, name).1 == GlobalRemoval::Shutdown,
{
}

fn is_interface(interface: &String, lit: &str) -> (r: bool)
    ensures
        r == (interface@ == lit@),
{
    let expected = lit.to_owned();
    *interface == expected
}

fn min_of(a: u32, b: u32) -> (r: u32)
    ensures
        r == min_u32(a, b),
{
    if a <= b {
        a
    } else {
        b
    }
}

impl State {
    /// Handles the announcement of a global (see `global_next`).
    pub fn registry_global(&mut self, name: u32, interface: &String, version: u32) -> (r: BindRequest)
        requires
            old(self)@.wf(),
        ensures
            (final(self)@, r) == global_next(old(self)@, name, interface@, version),
            final(self)@.wf(),
    {
        if is_interface(interface, "wl_compositor") {
            self.compositor.init(name);
            BindRequest::Compositor { version: min_of(State::MIN_WL_COMPOSITOR_VER, version) }
        } else if is_interface(interface, "wl_seat") {
            self.seats.insert(name, Seat { capabilities: None, name: None });
            BindRequest::Seat { version: min_of(State::MIN_WL_SEAT_VER, version) }
        } else if is_interface(interface, "ext_session_lock_manager_v1") {
            self.lock_manager.init(name);
            BindRequest::LockManager { version: 1 }
        } else if is_interface(interface, "wl_output") {
            self.put_output(name, Output::new_uninit(name));
            BindRequest::Output { version: min_of(version, 4) }
        } else if is_interface(interface, "wl_shm") {
            self.shm.init(name);
            BindRequest::Shm { version: State::MIN_WL_SHM_VER }
        } else {
            BindRequest::Ignore
        }
    }

    /// Handles the removal of a global (see `global_remove_next`).
    pub fn registry_global_remove(&mut self, name: u32) -> (r: GlobalRemoval)
        requires
            old(self)@.wf(),
        ensures
            (final(self)@, r) == global_remove_next(old(self)@, name),
            final(self)@.wf(),
    {
        let ghost before = self.seats@;
        match self.seats.remove(&name) {
            Some(_) => {
                assert(self.seats@ =~= before.remove(name));
                GlobalRemoval::ReleaseSeat
            },
            None => {
                assert(self.seats@ =~= before);
                self.exit = Some(1);
                GlobalRemoval::Shutdown
            },
        }
    }
}

} // verus!
