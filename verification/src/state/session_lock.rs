use vstd::prelude::*;

use crate::state::{has_output, State, StateView};
use crate::{OutputView, SurfaceInfoView};

verus! {

broadcast use vstd::std_specs::hash::group_hash_axioms;

/// An event of the session lock.
#[derive(Clone, Copy, PartialEq, Eq, Debug, Structural)]
pub enum LockEvent {
    /// The compositor has locked the session.
    Locked,
    /// The compositor will not (or no longer) lock the session.
    Finished,
}

/// What has to be done with the session lock after one of its events.
#[derive(Clone, Copy, PartialEq, Eq, Debug, Structural)]
pub enum LockAction {
    Nothing,
    UnlockAndDestroy,
    Destroy,
}

/// The state after an event of the session lock, and what has to be done
/// with the lock: a lock that held is given up when it is finished, one that
/// never held is only destroyed.
pub open spec fn lock_next(s: StateView, ev: LockEvent) -> (StateView, LockAction) {
    match ev {
        LockEvent::Locked => (StateView { is_locked: true, ..s }, LockAction::Nothing),
        LockEvent::Finished => if s.is_locked {
            (StateView { is_locked: false, ..s }, LockAction::UnlockAndDestroy)
        } else {
            (s, LockAction::Destroy)
        },
    }
}

/// A lock surface can be configured once it has been attached to its output.
pub open spec fn configure_allowed(s: StateView, name: u32) -> bool {
    &&& has_output(s.outputs, name)
    &&& s.output(name).surface_info is Some
}

/// The state after the lock surface of output `name` was configured to
/// `width` x `height`.
pub open spec fn configure_next(s: StateView, name: u32, width: u32, height: u32) -> StateView {
    let o = s.output(name);
    StateView {
        outputs: s.outputs.insert(
            name,
            OutputView {
                surface_info: Some(
                    SurfaceInfoView { width: Some(width), height: Some(height), ..o.surface_info->0 },
                ),
                configured: true,
                ..o
            },
        ),
        ..s
    }
}

/// After the lock is finished the session is no longer locked; a lock that
/// held is then given up.
pub proof fn lemma_finished_unlocks(s: StateView)
    ensures
        !lock_next(s, LockEvent::Finished).0.is_locked,
        s.is_locked ==> lock_next(s, LockEvent::Finished).1 == LockAction::UnlockAndDestroy,
        !s.is_locked ==> lock_next(s, LockEvent::Finished).1 == LockAction::Destroy,
{
}

/// A lock that the compositor confirmed and then finished is given up, and
/// the session ends up unlocked.
pub proof fn lemma_locked_then_finished(s: StateView)
    ensures
        ({
            let (s1, a1) = lock_next(s, LockEvent::Locked);
            let (s2, a2) = lock_next(s1, LockEvent::Finished);
            &&& a1 == LockAction::Nothing
            &&& s1.is_locked
            &&& a2 == LockAction::UnlockAndDestroy
            &&& !s2.is_locked
        }),
{
}

/// Configuring a lock surface records its size and marks the output as
/// configured, and leaves every other output as it was.
pub proof fn lemma_configure_records_size(s: StateView, name: u32, width: u32, height: u32)
    requires
        s.wf(),
        configure_allowed(s, name),
    ensures
        ({
            let t = configure_next(s, name, width, height);
            &&& t.wf()
            &&& has_output(t.outputs, name)
            &&& t.output(name).configured
            &&& t.output(name).surface_info->0.width == Some(width)
            &&& t.output(name).surface_info->0.height == Some(height)
            &&& t.output(name).surface_info->0.surface == s.output(name).surface_info->0.surface
            &&& forall|n: u32| n != name ==> #[trigger] t.outputs.contains_key(n) == s.outputs.contains_key(n)
                && (s.outputs.contains_key(n) ==> t.outputs[n] == s.outputs[n])
        }),
{
}

impl State {
    /// Handles an event of the session lock (see `lock_next`).
    pub fn session_lock_event(&mut self, ev: LockEvent) -> (r: LockAction)
        ensures
            (final(self)@, r) == lock_next(old(self)@, ev),
            old(self)@.wf() ==> final(self)@.wf(),
    {
        match ev {
            LockEvent::Locked => {
                self.is_locked = true;
                LockAction::Nothing
            },
            LockEvent::Finished => {
                if self.is_locked {
                    self.is_locked = false;
                    LockAction::UnlockAndDestroy
                } else {
                    LockAction::Destroy
                }
            },
        }
    }

    /// Whether the lock surface of output `name` can be configured (see
    /// `configure_allowed`).
    pub fn configure_ok(&self, name: u32) -> (r: bool)
        requires
            self@.wf(),
        ensures
            r == configure_allowed(self@, name),
    {
        match self.outputs.get(&name) {
            Some(o) => o.surface_info.is_init(),
            None => false,
        }
    }

    /// Records the size that the compositor configured for the lock surface
    /// of output `name` (see `configure_next`); the configure event still has
    /// to be acknowledged.
    pub fn configure_surface(&mut self, name: u32, width: u32, height: u32)
        requires
            old(self)@.wf(),
            configure_allowed(old(self)@, name),
        ensures
            final(self)@ == configure_next(old(self)@, name, width, height),
            final(self)@.wf(),
    {
        let ghost s0 = self@;
        let mut o = self.take_output(name);
        o.surface_info.get_mut().height.init(height);
        o.surface_info.get_mut().width.init(width);
        o.configured = true;
        self.put_output(name, o);
        assert(self@.outputs =~= configure_next(s0, name, width, height).outputs);
    }
}

} // verus!
