//! Switching on external operating-system commands: users enable them
//! with a dedicated command, and the Shell listener installs the real
//! command once, on the first request after enabling.

use vstd::prelude::*;

verus! {

/// How far the enabling of external commands has progressed.
#[derive(Debug, Clone, Copy, PartialEq, Eq, Structural)]
pub enum ExternalState {
    Disabled,
    JustEnabled,
    AlreadyEnabled,
}

/// The state's position in the enabling order.
pub open spec fn external_rank(s: ExternalState) -> int {
    match s {
        ExternalState::Disabled => 0int,
        ExternalState::JustEnabled => 1int,
        ExternalState::AlreadyEnabled => 2int,
    }
}

/// The holder of the enabling state, owned by the Shell listener.
pub struct AtomicExternalState {
    pub state: ExternalState,
}

impl AtomicExternalState {
    /// A gate with external commands still disabled.
    pub fn new(s: ExternalState) -> (r: Self)
        ensures
            r.state == s,
    {
        AtomicExternalState { state: s }
    }

    /// Raise the state to at least `val`, handing back what stood
    /// before: the state never moves backwards.
    pub fn fetch_max(&mut self, val: ExternalState) -> (r: ExternalState)
        ensures
            r == old(self).state,
            external_rank(final(self).state) == (if external_rank(val) > external_rank(
                old(self).state,
            ) {
                external_rank(val)
            } else {
                external_rank(old(self).state)
            }),
    {
        let prev = self.state;
        let higher = match (val, prev) {
            (ExternalState::AlreadyEnabled, _) => true,
            (ExternalState::JustEnabled, ExternalState::Disabled) => true,
            _ => false,
        };
        if higher {
            self.state = val;
        }
        prev
    }

    /// The current state.
    pub fn load(&self) -> (r: ExternalState)
        ensures
            r == self.state,
    {
        self.state
    }

    /// Whether the listener must install the external command now: yes
    /// exactly on the first request after enabling, after which the
    /// state records the installation.
    pub fn apply_step(&mut self) -> (r: bool)
        ensures
            r == (old(self).state == ExternalState::JustEnabled),
            r ==> final(self).state == ExternalState::AlreadyEnabled,
            !r ==> *final(self) == *old(self),
    {
        match self.state {
            ExternalState::JustEnabled => {
                self.state = ExternalState::AlreadyEnabled;
                true
            }
            _ => false,
        }
    }
}

} // verus!
