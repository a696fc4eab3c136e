use vstd::prelude::*;

verus! {

/// A slot that is filled once the value it holds becomes available.
///
/// Reading the slot is only allowed after it has been filled; `init` may be
/// called again, in which case the new value replaces the old one.
pub struct Late<T> {
    maybe_uninit: Option<T>,
}

impl<T> View for Late<T> {
    type V = Option<T>;

    closed spec fn view(&self) -> Option<T> {
        self.maybe_uninit
    }
}

impl<T> Late<T> {
    /// An empty slot.
    pub fn uninit() -> (r: Self)
        ensures
            r@ is None,
    {
        Late { maybe_uninit: None }
    }

    /// Fills the slot with `val`, replacing what it held before.
    pub fn init(&mut self, val: T)
        ensures
            final(self)@ == Some(val),
            final(self)@ == late_step(old(self)@, LateOp::Init(val)),
    {
        self.maybe_uninit = Some(val);
    }

    /// Whether the slot has been filled.
    pub fn is_init(&self) -> (b: bool)
        ensures
            b == self@ is Some,
    {
        self.maybe_uninit.is_some()
    }

    /// The value in the slot; the slot must have been filled.
    pub fn get(&self) -> (r: &T)
        requires
            self@ is Some,
        ensures
            *r == self@->0,
    {
        self.maybe_uninit.as_ref().unwrap()
    }

    /// Mutable access to the value in the slot; the slot must have been filled.
    pub fn get_mut(&mut self) -> (r: &mut T)
        requires
            old(self)@ is Some,
        ensures
            *r == old(self)@->0,
            final(self)@ == Some(*final(r)),
            final(self)@ == late_step(old(self)@, LateOp::GetMut(*final(r))),
    {
        self.maybe_uninit.as_mut().unwrap()
    }
}

impl<T> Default for Late<T> {
    fn default() -> (r: Self)
        ensures
            r@ is None,
    {
        Late::uninit()
    }
}

/// One call on a slot, as far as it matters to what the slot holds.
pub enum LateOp<T> {
    /// `init` with this value.
    Init(T),
    /// `is_init`.
    IsInit,
    /// `get`.
    Get,
    /// `get_mut`, after which the caller left this value behind the reference.
    GetMut(T),
}

/// What a slot holds after one call, given what it held before.
pub open spec fn late_step<T>(slot: Option<T>, op: LateOp<T>) -> Option<T> {
    match op {
        LateOp::Init(v) => Some(v),
        LateOp::IsInit => slot,
        LateOp::Get => slot,
        LateOp::GetMut(v) => if slot is Some {
            Some(v)
        } else {
            slot
        },
    }
}

/// What a slot made by `uninit` (or `default`) holds after the calls `ops`.
pub open spec fn late_run<T>(ops: Seq<LateOp<T>>) -> Option<T>
    decreases ops.len(),
{
    if ops.len() == 0 {
        None
    } else {
        late_step(late_run(ops.drop_last()), ops.last())
    }
}

/// A slot that starts empty reports itself filled exactly when `init` was
/// among the calls made on it; once filled it stays filled, and `is_init`
/// and `get` leave it as it was.
pub proof fn lemma_filled_iff_initialised<T>(ops: Seq<LateOp<T>>)
    ensures
        late_run(ops) is Some <==> exists|i: int| 0 <= i < ops.len() && #[trigger] ops[i] is Init,
        forall|i: int, j: int| 0 <= i <= j <= ops.len() && (#[trigger] late_run(ops.take(i))) is Some ==> (#[trigger] late_run(ops.take(j))) is Some,
        forall|slot: Option<T>| #[trigger] late_step(slot, LateOp::IsInit) == slot,
        forall|slot: Option<T>| #[trigger] late_step(slot, LateOp::Get) == slot,
    decreases ops.len(),
{
    if ops.len() > 0 {
        let prev = ops.drop_last();
        lemma_filled_iff_initialised(prev);
        assert forall|i: int| 0 <= i < prev.len() implies #[trigger] prev[i] == ops[i] by {}
        if !(ops.last() is Init) && late_run(ops) is Some {
            let i = choose|i: int| 0 <= i < prev.len() && #[trigger] prev[i] is Init;
            assert(ops[i] is Init);
        }
        if late_run(ops) is None {
            assert forall|i: int| 0 <= i < ops.len() implies !(#[trigger] ops[i] is Init) by {
                if i < prev.len() {
                    assert(prev[i] == ops[i]);
                }
            }
        }
        assert forall|i: int, j: int| 0 <= i <= j <= ops.len() && (#[trigger] late_run(ops.take(i))) is Some implies (
        #[trigger] late_run(ops.take(j))) is Some by {
            lemma_take_run_grows(ops, i, j);
        }
    } else {
        assert forall|i: int, j: int| 0 <= i <= j <= ops.len() && (#[trigger] late_run(ops.take(i))) is Some implies (
        #[trigger] late_run(ops.take(j))) is Some by {
            assert(ops.take(i) =~= ops.take(j));
        }
    }
}

proof fn lemma_take_run_grows<T>(ops: Seq<LateOp<T>>, i: int, j: int)
    requires
        0 <= i <= j <= ops.len(),
        late_run(ops.take(i)) is Some,
    ensures
        late_run(ops.take(j)) is Some,
    decreases j - i,
{
    if i < j {
        lemma_take_run_grows(ops, i, j - 1);
        assert(ops.take(j).drop_last() =~= ops.take(j - 1));
    }
}

} // verus!
