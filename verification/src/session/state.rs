//! The states of a recording session and the moves between them.
use vstd::prelude::*;

verus! {

#[derive(Debug, Clone, Copy, PartialEq, Eq, Structural)]
pub enum SessionState {
    Idle,
    Preparing,
    Recording,
    Paused,
    Stopping,
    Completed,
    Error,
}

/// The state with the given number; every number without one means an error.
pub open spec fn state_of(val: u8) -> SessionState {
    if val == 0 {
        SessionState::Idle
    } else if val == 1 {
        SessionState::Preparing
    } else if val == 2 {
        SessionState::Recording
    } else if val == 3 {
        SessionState::Paused
    } else if val == 4 {
        SessionState::Stopping
    } else if val == 5 {
        SessionState::Completed
    } else {
        SessionState::Error
    }
}

impl From<u8> for SessionState {
    fn from(val: u8) -> (s: Self) {
        match val {
            0 => SessionState::Idle,
            1 => SessionState::Preparing,
            2 => SessionState::Recording,
            3 => SessionState::Paused,
            4 => SessionState::Stopping,
            5 => SessionState::Completed,
            _ => SessionState::Error,
        }
    }
}

impl vstd::std_specs::convert::FromSpecImpl<u8> for SessionState {
    open spec fn obeys_from_spec() -> bool {
        true
    }

    open spec fn from_spec(val: u8) -> Self {
        state_of(val)
    }
}

impl SessionState {
    /// The state's number.
    pub fn code(self) -> (c: u8)
        ensures
            c <= 6,
            state_of(c) == self,
    {
        match self {
            SessionState::Idle => 0,
            SessionState::Preparing => 1,
            SessionState::Recording => 2,
            SessionState::Paused => 3,
            SessionState::Stopping => 4,
            SessionState::Completed => 5,
            SessionState::Error => 6,
        }
    }
}

#[derive(Debug, Clone, Copy, PartialEq, Eq, Structural)]
pub enum StateTransitionError {
    InvalidTransition { from: SessionState, to: SessionState },
}

/// The moves of a session: through its life cycle and back, into an error from
/// every active state, and out of one. A failed session can still be stopped, so
/// that writers, callbacks and the project lock are finalized.
pub open spec fn may_move(from: SessionState, to: SessionState) -> bool {
    match from {
        SessionState::Idle => to == SessionState::Preparing,
        SessionState::Preparing => to == SessionState::Recording || to == SessionState::Error,
        SessionState::Recording => to == SessionState::Paused || to == SessionState::Stopping || to
            == SessionState::Error,
        SessionState::Paused => to == SessionState::Recording || to == SessionState::Stopping || to
            == SessionState::Error,
        SessionState::Stopping => to == SessionState::Completed || to == SessionState::Error,
        SessionState::Completed => to == SessionState::Idle || to == SessionState::Preparing,
        SessionState::Error => to == SessionState::Stopping || to == SessionState::Idle || to
            == SessionState::Preparing,
    }
}

/// The state of a recording session.
#[derive(Debug, Clone, Copy, PartialEq, Eq, Structural)]
pub struct SessionStateMachine {
    state: SessionState,
}

impl View for SessionStateMachine {
    type V = SessionState;

    closed spec fn view(&self) -> SessionState {
        self.state
    }
}

impl Default for SessionStateMachine {
    fn default() -> (m: Self)
        ensures
            m@ == SessionState::Idle,
    {
        Self::new()
    }
}

impl SessionStateMachine {
    pub fn new() -> (m: Self)
        ensures
            m@ == SessionState::Idle,
    {
        SessionStateMachine { state: SessionState::Idle }
    }

    pub fn current(&self) -> (s: SessionState)
        ensures
            s == self@,
    {
        self.state
    }

    /// Moves to `next`, or refuses and stays. To stay is always allowed.
    pub fn transition_to(&mut self, next: SessionState) -> (r: Result<(), StateTransitionError>)
        ensures
            may_move(old(self)@, next) || old(self)@ == next ==> r is Ok && final(self)@ == next,
            !may_move(old(self)@, next) && old(self)@ != next ==> r == Err::<
                (),
                StateTransitionError,
            >((StateTransitionError::InvalidTransition { from: old(self)@, to: next }))
                && final(self)@ == old(self)@,
    {
        let valid: bool = match self.state {
            SessionState::Idle => next == SessionState::Preparing,
            SessionState::Preparing => next == SessionState::Recording || next
                == SessionState::Error,
            SessionState::Recording => next == SessionState::Paused || next
                == SessionState::Stopping || next == SessionState::Error,
            SessionState::Paused => next == SessionState::Recording || next
                == SessionState::Stopping || next == SessionState::Error,
            SessionState::Stopping => next == SessionState::Completed || next
                == SessionState::Error,
            SessionState::Completed => next == SessionState::Idle || next
                == SessionState::Preparing,
            SessionState::Error => next == SessionState::Stopping || next == SessionState::Idle
                || next == SessionState::Preparing,
        };
        if valid || self.state == next {
            self.state = next;
            Ok(())
        } else {
            Err(StateTransitionError::InvalidTransition { from: self.state, to: next })
        }
    }

    pub fn is_recording(&self) -> (r: bool)
        ensures
            r == (self@ == SessionState::Recording),
    {
        self.state == SessionState::Recording
    }

    pub fn is_paused(&self) -> (r: bool)
        ensures
            r == (self@ == SessionState::Paused),
    {
        self.state == SessionState::Paused
    }
}

/// Recording is entered only from preparation or a pause, and a session that is
/// active can always be led to an end: it may stop, or fail and then stop.
pub proof fn recording_is_entered_and_left_in_order(from: SessionState, to: SessionState)
    ensures
        may_move(from, SessionState::Recording) ==> from == SessionState::Preparing || from
            == SessionState::Paused,
        may_move(SessionState::Recording, to) && to != SessionState::Paused ==> may_move(
            to,
            SessionState::Stopping,
        ) || to == SessionState::Stopping,
        may_move(from, SessionState::Completed) ==> from == SessionState::Stopping,
        from != SessionState::Idle && from != SessionState::Completed && from
            != SessionState::Error ==> may_move(from, SessionState::Error),
{
}

/// A session can be recorded, paused, gone on with and completed, and then another can be
/// prepared; and each of these is reached only from where it follows.
pub proof fn sessions_run_their_course(from: SessionState)
    ensures
        may_move(from, SessionState::Preparing) <==> from == SessionState::Idle || from
            == SessionState::Completed || from == SessionState::Error,
        may_move(from, SessionState::Recording) <==> from == SessionState::Preparing || from
            == SessionState::Paused,
        may_move(from, SessionState::Paused) <==> from == SessionState::Recording,
        may_move(from, SessionState::Stopping) <==> from == SessionState::Recording || from
            == SessionState::Paused || from == SessionState::Error,
        may_move(from, SessionState::Completed) <==> from == SessionState::Stopping,
        may_move(from, SessionState::Idle) <==> from == SessionState::Completed || from
            == SessionState::Error,
        may_move(from, SessionState::Error) <==> from == SessionState::Preparing || from
            == SessionState::Recording || from == SessionState::Paused || from
            == SessionState::Stopping,
{
}

} // verus!
