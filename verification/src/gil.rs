use vstd::prelude::*;

verus! {

/// What the caller must do with the Python thread state after a step of
/// the lock machine.
#[derive(Clone, Copy, Debug, PartialEq, Eq, Structural)]
pub enum GilAction {
    /// Nothing.
    Keep,
    /// Take the interpreter lock back by restoring the saved thread state.
    RestoreThread,
    /// Let go of the interpreter lock, saving the thread state.
    SaveThread,
}

/// The lock machine's state: whether a thread state is saved (the
/// interpreter lock is let go), and how many guards hold the lock.
#[derive(Clone, Copy, Debug, PartialEq, Eq, Structural)]
pub struct InternalState {
    pub saved: bool,
    pub lock_counter: i16,
}

/// A record of the interpreter lock while work runs without it: either
/// unreleasable (nothing to track), or a lock machine.
pub struct GIL {
    state: Option<InternalState>,
}

/// The states that the lock machine reaches: let go with no guard, or
/// held by at least one guard.
pub open spec fn state_wf(s: InternalState) -> bool {
    (s.saved && s.lock_counter == 0) || (!s.saved && s.lock_counter >= 1)
}

/// Taking the lock: restore a saved thread state, and count one more guard.
pub open spec fn spec_lock(s: InternalState) -> (InternalState, GilAction) {
    (
        InternalState { saved: false, lock_counter: (s.lock_counter + 1) as i16 },
        if s.saved { GilAction::RestoreThread } else { GilAction::Keep },
    )
}

/// Dropping a guard: the last guard lets the lock go again.
pub open spec fn spec_release(s: InternalState) -> (InternalState, GilAction) {
    if s.lock_counter == 1 {
        (InternalState { saved: true, lock_counter: 0 }, GilAction::SaveThread)
    } else {
        (InternalState { saved: false, lock_counter: (s.lock_counter - 1) as i16 }, GilAction::Keep)
    }
}

/// One lock step on a state.
pub fn do_lock(s: InternalState) -> (r: (InternalState, GilAction))
    requires
        s.lock_counter < i16::MAX,
    ensures
        r == spec_lock(s),
{
    let action = if s.saved { GilAction::RestoreThread } else { GilAction::Keep };
    (InternalState { saved: false, lock_counter: s.lock_counter + 1 }, action)
}

/// One release step on a state.
pub fn do_release(s: InternalState) -> (r: (InternalState, GilAction))
    requires
        s.lock_counter > i16::MIN,
    ensures
        r == spec_release(s),
{
    if s.lock_counter == 1 {
        (InternalState { saved: true, lock_counter: 0 }, GilAction::SaveThread)
    } else {
        (InternalState { saved: false, lock_counter: s.lock_counter - 1 }, GilAction::Keep)
    }
}

/// Taking the lock and dropping that guard gives back the state the
/// machine was in, and the release lets the lock go exactly when the
/// lock step had taken it back.
pub proof fn lemma_lock_release_restores(s: InternalState)
    requires
        state_wf(s),
        s.lock_counter < i16::MAX,
    ensures
        state_wf(spec_lock(s).0),
        spec_release(spec_lock(s).0).0 == s,
        (spec_release(spec_lock(s).0).1 == GilAction::SaveThread) <==> (spec_lock(s).1 == GilAction::RestoreThread),
{
}

/// Both steps keep the machine among the states it can reach.
pub proof fn lemma_steps_keep_wf(s: InternalState)
    requires
        state_wf(s),
    ensures
        s.lock_counter < i16::MAX ==> state_wf(spec_lock(s).0),
        !s.saved ==> state_wf(spec_release(s).0),
{
}

impl GIL {
    pub closed spec fn spec_state(&self) -> Option<InternalState> {
        self.state
    }

    /// A lock machine for a thread whose state the caller has just saved.
    pub fn new_released() -> (g: Self)
        ensures
            g.spec_state() == Some(InternalState { saved: true, lock_counter: 0 }),
    {
        GIL { state: Some(InternalState { saved: true, lock_counter: 0 }) }
    }

    /// A record for work that keeps the interpreter lock throughout.
    pub fn new_unreleasable() -> (g: Self)
        ensures
            g.spec_state() is None,
    {
        GIL { state: None }
    }

    /// Whether a thread state is saved, that is, the lock is let go.
    pub fn is_released(&self) -> (b: bool)
        ensures
            b == (self.spec_state() matches Some(s) && s.saved),
    {
        match &self.state {
            Some(s) => s.saved,
            None => false,
        }
    }

    /// Takes the lock for a guard: `None` when there is no machine, else
    /// what to do with the thread state.
    pub fn gil_locked(&mut self) -> (a: Option<GilAction>)
        requires
            old(self).spec_state() matches Some(s) ==> s.lock_counter < i16::MAX,
        ensures
            match old(self).spec_state() {
                None => a is None && final(self).spec_state() is None,
                Some(s) => a == Some(spec_lock(s).1) && final(self).spec_state() == Some(spec_lock(s).0),
            },
    {
        match self.state {
            Some(s) => {
                let (next, action) = do_lock(s);
                self.state = Some(next);
                Some(action)
            },
            None => None,
        }
    }

    /// Drops a guard that `gil_locked` gave out.
    pub fn release_guard(&mut self) -> (a: Option<GilAction>)
        requires
            old(self).spec_state() matches Some(s) ==> s.lock_counter > i16::MIN,
        ensures
            match old(self).spec_state() {
                None => a is None && final(self).spec_state() is None,
                Some(s) => a == Some(spec_release(s).1) && final(self).spec_state() == Some(spec_release(s).0),
            },
    {
        match self.state {
            Some(s) => {
                let (next, action) = do_release(s);
                self.state = Some(next);
                Some(action)
            },
            None => None,
        }
    }

    /// The end of the record: the lock is taken back for good.
    pub fn finish(&mut self) -> (a: Option<GilAction>)
        requires
            old(self).spec_state() matches Some(s) ==> s.lock_counter < i16::MAX,
        ensures
            match old(self).spec_state() {
                None => a is None && final(self).spec_state() is None,
                Some(s) => a == Some(spec_lock(s).1) && final(self).spec_state() == Some(spec_lock(s).0),
            },
    {
        self.gil_locked()
    }
}

} // verus!
