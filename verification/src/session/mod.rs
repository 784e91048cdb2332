//! Recording sessions: clocks, events, queues and states.

pub mod clock;
pub mod event;
pub mod queue;
pub mod state;

pub use clock::{ClockDriftEstimator, SessionEpoch};
pub use event::{RuntimeErrorRecord, SessionDiagnostics, SessionEvent};
pub use queue::BoundedQueue;
pub use state::{SessionState, SessionStateMachine, StateTransitionError};
