pub mod seat;
pub mod session_lock;
pub mod wl_registry;

use std::collections::HashMap;

use vstd::prelude::*;
use vstd::std_specs::iter::IteratorSpec;

use crate::events::{no_modifiers, Modifiers, Position};
use crate::utils::late::Late;
use crate::{Output, OutputView, Seat, SeatCapabilities, SurfaceInfo, SurfaceInfoView, CAPABILITY_KEYBOARD};

verus! {

broadcast use vstd::std_specs::hash::group_hash_axioms;

/// What the lock screen knows of its pointer.
///
/// Positions are counted in 1/256 of a pixel.
#[derive(Clone, Copy, PartialEq, Eq, Debug, Structural)]
pub struct Pointer {
    pub focused_output: Option<u32>,
    pub last_focused_output_in_events: Option<u32>,
    pub last_pointer_pos: Option<Position>,
}

/// What the lock screen knows of its keyboard; the keymap itself lives with
/// the keyboard's connection.
#[derive(Clone, Copy, PartialEq, Eq, Debug, Structural)]
pub struct Kb {
    pub key_mods: Modifiers,
    pub focused_output: Option<u32>,
    pub has_keymap: bool,
}

pub open spec fn fresh_kb() -> Kb {
    Kb { key_mods: no_modifiers(), focused_output: None, has_keymap: false }
}

/// The input devices that the lock screen listens to.
#[derive(Clone, Copy, PartialEq, Eq, Debug, Structural)]
pub struct Input {
    pub pointer: Option<Pointer>,
    pub keyboard: Option<Kb>,
}

/// The state of the lock screen that the compositor's events change.
///
/// The protocol objects themselves (proxies, surfaces, GPU resources) are kept
/// by the caller, keyed by the registry names and surface ids held here.
pub struct State {
    pub compositor: Late<u32>,
    pub shm: Late<u32>,
    pub lock_manager: Late<u32>,
    pub seats: HashMap<u32, Seat>,
    pub input: Late<Input>,
    pub outputs: HashMap<u32, Output>,
    pub init_done: bool,
    pub exit: Option<u32>,
    pub is_locked: bool,
    pub new_events: bool,
}

pub struct StateView {
    pub compositor: Option<u32>,
    pub shm: Option<u32>,
    pub lock_manager: Option<u32>,
    pub seats: Map<u32, Seat>,
    pub input: Option<Input>,
    pub outputs: Map<u32, OutputView>,
    pub init_done: bool,
    pub exit: Option<u32>,
    pub is_locked: bool,
    pub new_events: bool,
}

impl View for State {
    type V = StateView;

    open spec fn view(&self) -> StateView {
        StateView {
            compositor: self.compositor@,
            shm: self.shm@,
            lock_manager: self.lock_manager@,
            seats: self.seats@,
            input: self.input@,
            outputs: self.outputs@.map_values(|o: Output| o@),
            init_done: self.init_done,
            exit: self.exit,
            is_locked: self.is_locked,
            new_events: self.new_events,
        }
    }
}

pub open spec fn has_output(outs: Map<u32, OutputView>, name: u32) -> bool {
    outs.contains_key(name)
}

pub open spec fn has_seat(seats: Map<u32, Seat>, global: u32) -> bool {
    seats.contains_key(global)
}

/// Every output is kept under its own name.
pub open spec fn outputs_named(outs: Map<u32, OutputView>) -> bool {
    forall|n: u32| #[trigger] outs.contains_key(n) ==> outs[n].name == n
}

/// A sequence that holds every output's name once: an order in which the
/// outputs can be walked.
pub open spec fn is_output_order(outs: Map<u32, OutputView>, order: Seq<u32>) -> bool {
    &&& order.no_duplicates()
    &&& forall|k: u32| outs.contains_key(k) <==> #[trigger] order.contains(k)
}

impl StateView {
    /// Every output is kept under its own name.
    pub open spec fn wf(self) -> bool {
        outputs_named(self.outputs)
    }

    pub open spec fn output(self, name: u32) -> OutputView {
        self.outputs[name]
    }
}

proof fn lemma_outputs_view_insert(m: Map<u32, Output>, n: u32, o: Output)
    ensures
        m.insert(n, o).map_values(|x: Output| x@) == m.map_values(|x: Output| x@).insert(n, o@),
{
    assert(m.insert(n, o).map_values(|x: Output| x@) =~= m.map_values(|x: Output| x@).insert(n, o@));
}

proof fn lemma_outputs_view_remove(m: Map<u32, Output>, n: u32)
    ensures
        m.remove(n).map_values(|x: Output| x@) == m.map_values(|x: Output| x@).remove(n),
{
    assert(m.remove(n).map_values(|x: Output| x@) =~= m.map_values(|x: Output| x@).remove(n));
}

pub open spec fn seat_has_keyboard(seat: Seat) -> bool {
    match seat.capabilities {
        Some(SeatCapabilities::Value(bits)) => bits & CAPABILITY_KEYBOARD == CAPABILITY_KEYBOARD,
        _ => false,
    }
}

pub open spec fn no_unknown_capabilities(seats: Map<u32, Seat>) -> bool {
    forall|g: u32| #[trigger] seats.contains_key(g) ==> !(seats[g].capabilities matches Some(SeatCapabilities::Unknown(_)))
}

pub open spec fn empty_state() -> StateView {
    StateView {
        compositor: None,
        shm: None,
        lock_manager: None,
        seats: Map::empty(),
        input: None,
        outputs: Map::empty(),
        init_done: false,
        exit: None,
        is_locked: false,
        new_events: false,
    }
}

impl Default for State {
    fn default() -> (r: Self)
        ensures
            r@ == empty_state(),
    {
        let r = State {
            compositor: Late::uninit(),
            shm: Late::uninit(),
            lock_manager: Late::uninit(),
            seats: HashMap::new(),
            input: Late::uninit(),
            outputs: HashMap::new(),
            init_done: false,
            exit: None,
            is_locked: false,
            new_events: false,
        };
        assert(r@.outputs =~= Map::<u32, OutputView>::empty());
        r
    }
}

impl State {
    pub const MIN_WL_COMPOSITOR_VER: u32 = 6;

    pub const MIN_WL_SEAT_VER: u32 = 9;

    pub const MIN_WL_SUBCOMPOSITOR_VER: u32 = 1;

    pub const MIN_ZWLR_LAYER_SHELL_VER: u32 = 4;

    pub const MIN_WL_SHM_VER: u32 = 2;

    /// Whether an output was announced under `name`.
    pub fn has_output(&self, name: u32) -> (r: bool)
        ensures
            r == has_output(self@.outputs, name),
    {
        self.outputs.contains_key(&name)
    }

    /// Whether a seat was announced under `global`.
    pub fn has_seat(&self, global: u32) -> (r: bool)
        ensures
            r == has_seat(self@.seats, global),
    {
        self.seats.contains_key(&global)
    }

    /// The names of the outputs, each once, in the order in which the map of
    /// outputs is walked.
    pub fn output_names(&self) -> (r: Vec<u32>)
        ensures
            is_output_order(self@.outputs, r@),
    {
        let mut r: Vec<u32> = Vec::new();
        let ghost pairs = vstd::std_specs::hash::spec_hash_map_iter(&self.outputs).remaining();
        for (k, _o) in it: self.outputs.iter()
            invariant
                it.seq() == pairs,
                r@.len() == it.index(),
                r@ == it.seq().take(it.index() as int).map_values(|p: (&u32, &Output)| *p.0),
                forall|i: int|
                    0 <= i < it.seq().len() ==> self.outputs@.contains_key(*(#[trigger] it.seq()[i]).0)
                        && self.outputs@[*it.seq()[i].0] == *it.seq()[i].1,
                forall|k: u32| #[trigger] self.outputs@.contains_key(k) ==> it.seq().contains((&k, &self.outputs@[k])),
                it.seq().no_duplicates(),
        {
            r.push(*k);
            assert(it.seq().take(it.index() + 1).map_values(|p: (&u32, &Output)| *p.0) =~= it.seq().take(
                it.index() as int,
            ).map_values(|p: (&u32, &Output)| *p.0).push(*k));
        }
        assert(r@ == pairs.map_values(|p: (&u32, &Output)| *p.0));
        assert forall|k: u32| self@.outputs.contains_key(k) <==> r@.contains(k) by {
            if self.outputs@.contains_key(k) {
                let i = choose|i: int| 0 <= i < pairs.len() && pairs[i] == (&k, &self.outputs@[k]);
                assert(r@[i] == k);
            }
            if r@.contains(k) {
                let i = choose|i: int| 0 <= i < r@.len() && r@[i] == k;
                assert(self.outputs@.contains_key(*pairs[i].0));
            }
        }
        r
    }

    /// Takes the output announced under `name` out of the state.
    pub(crate) fn take_output(&mut self, name: u32) -> (o: Output)
        requires
            has_output(old(self)@.outputs, name),
        ensures
            o@ == old(self)@.outputs[name],
            final(self)@ == (StateView { outputs: old(self)@.outputs.remove(name), ..old(self)@ }),
    {
        let o = self.outputs.remove(&name).unwrap();
        proof {
            lemma_outputs_view_remove(old(self).outputs@, name);
        }
        o
    }

    /// Puts an output back under `name`.
    pub(crate) fn put_output(&mut self, name: u32, o: Output)
        ensures
            final(self)@ == (StateView { outputs: old(self)@.outputs.insert(name, o@), ..old(self)@ }),
    {
        let ghost o_view = o@;
        self.outputs.insert(name, o);
        proof {
            lemma_outputs_view_insert(old(self).outputs@, name, o);
        }
    }

    /// Marks the registry round as done; the compositor global must have
    /// been announced by then.
    pub fn finish_init(&mut self)
        requires
            old(self)@.compositor is Some,
        ensures
            final(self)@ == (StateView { init_done: true, ..old(self)@ }),
    {
        self.init_done = true;
    }

    /// Records the lock surface made for the output announced under `name`.
    pub fn attach_surface(&mut self, name: u32, surface: u32)
        requires
            old(self)@.wf(),
            has_output(old(self)@.outputs, name),
        ensures
            final(self)@.wf(),
            final(self)@ == (StateView {
                outputs: old(self)@.outputs.insert(
                    name,
                    OutputView {
                        surface_info: Some(SurfaceInfoView { surface, width: None, height: None }),
                        ..old(self)@.output(name)
                    },
                ),
                ..old(self)@
            }),
    {
        let mut o = self.take_output(name);
        o.surface_info.init(SurfaceInfo { surface, width: Late::uninit(), height: Late::uninit() });
        self.put_output(name, o);
        assert(self@.outputs =~= old(self)@.outputs.insert(
            name,
            OutputView {
                surface_info: Some(SurfaceInfoView { surface, width: None, height: None }),
                ..old(self)@.output(name)
            },
        ));
    }

    /// Starts listening to input: a keyboard is taken from every seat that
    /// announced one. Returns the registry names of those seats, each once.
    pub fn init_input(&mut self) -> (r: Vec<u32>)
        requires
            no_unknown_capabilities(old(self)@.seats),
        ensures
            r@.no_duplicates(),
            forall|g: u32| #[trigger] r@.contains(g) <==> (old(self)@.seats.contains_key(g) && seat_has_keyboard(old(self)@.seats[g])),
            final(self)@ == (StateView {
                input: Some(Input {
                    pointer: None,
                    keyboard: if r@.len() > 0 { Some(fresh_kb()) } else { None },
                }),
                ..old(self)@
            }),
    {
        let mut r: Vec<u32> = Vec::new();
        let mut keyboard: Option<Kb> = None;
        let ghost pairs = vstd::std_specs::hash::spec_hash_map_iter(&self.seats).remaining();
        let ghost seats = self.seats@;
        for (g, seat) in it: self.seats.iter()
            invariant
                it.seq() == pairs,
                seats == self.seats@,
                no_unknown_capabilities(seats),
                forall|i: int|
                    0 <= i < it.seq().len() ==> seats.contains_key(*(#[trigger] it.seq()[i]).0)
                        && seats[*it.seq()[i].0] == *it.seq()[i].1,
                forall|k: u32| #[trigger] seats.contains_key(k) ==> it.seq().contains((&k, &seats[k])),
                it.seq().no_duplicates(),
                r@.no_duplicates(),
                forall|k: u32| #[trigger] r@.contains(k) ==> seats.contains_key(k) && seat_has_keyboard(seats[k]),
                forall|i: int|
                    0 <= i < it.index() && seat_has_keyboard(*it.seq()[i].1) ==> r@.contains(*(#[trigger] it.seq()[i]).0),
                forall|k: u32| #[trigger] r@.contains(k) ==> exists|i: int| 0 <= i < it.index() && *(#[trigger] it.seq()[i]).0 == k,
                keyboard == (if r@.len() > 0 { Some(fresh_kb()) } else { None::<Kb> }),
        {
            let ghost idx = it.index();
            let ghost r_before = r@;
            assert(it.seq()[idx as int] == (g, seat));
            match seat.capabilities {
                Some(SeatCapabilities::Value(bits)) => {
                    if bits & CAPABILITY_KEYBOARD == CAPABILITY_KEYBOARD {
                        proof {
                            if r@.contains(*g) {
                                let i = choose|i: int| 0 <= i < idx && *(#[trigger] it.seq()[i]).0 == *g;
                                assert(it.seq()[i] == it.seq()[idx as int]);
                            }
                        }
                        let ghost r0 = r@;
                        r.push(*g);
                        proof {
                            assert forall|k: u32| #[trigger] r@.contains(k) implies exists|i: int|
                                0 <= i < idx + 1 && *(#[trigger] it.seq()[i]).0 == k by {
                                if k != *g {
                                    assert(r0.contains(k));
                                } else {
                                    assert(*it.seq()[idx as int].0 == k);
                                }
                            }
                            assert forall|k: u32| #[trigger] r@.contains(k) implies seats.contains_key(k) && seat_has_keyboard(seats[k]) by {
                                if k != *g {
                                    assert(r0.contains(k));
                                }
                            }
                        }
                        keyboard = Some(Kb { key_mods: Modifiers::none(), focused_output: None, has_keymap: false });
                    }
                },
                Some(SeatCapabilities::Unknown(_)) => {
                    assert(seats.contains_key(*g));
                },
                None => {},
            }
            proof {
                assert forall|i: int| 0 <= i < idx + 1 && seat_has_keyboard(*it.seq()[i].1) implies r@.contains(
                    *(#[trigger] it.seq()[i]).0,
                ) by {
                    let x = *it.seq()[i].0;
                    if i < idx {
                        assert(r_before.contains(x));
                        let j = choose|j: int| 0 <= j < r_before.len() && r_before[j] == x;
                        assert(r@[j] == x);
                    } else {
                        assert(r@[r@.len() - 1] == x);
                    }
                }
            }
        }
        assert forall|k: u32| #[trigger] r@.contains(k) <==> (seats.contains_key(k) && seat_has_keyboard(seats[k])) by {
            if seats.contains_key(k) && seat_has_keyboard(seats[k]) {
                assert(pairs.contains((&k, &seats[k])));
                let i = choose|i: int| 0 <= i < pairs.len() && pairs[i] == (&k, &seats[k]);
                assert(*pairs[i].0 == k && seat_has_keyboard(*pairs[i].1));
            }
        }
        self.input.init(Input { pointer: None, keyboard });
        r
    }
}

} // verus!
