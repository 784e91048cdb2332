//! What the capture pipeline reports, and what is remembered of it.
use vstd::prelude::*;

verus! {

/// An event of the capture pipeline. A single misbehaving track must not silently
/// corrupt the rest of the project.
#[derive(Debug, PartialEq, Eq)]
pub enum SessionEvent {
    /// An error on a track. When it is not recoverable, the track is no longer
    /// trustworthy.
    RuntimeError {
        track_id: String,
        error_code: i32,
        message: String,
        t_us: u64,
        recoverable: bool,
    },
    /// A segment was rotated on disk and its host-clock anchor is known.
    SegmentRotated {
        track_id: String,
        segment_index: u32,
        host_anchor_us: i64,
        media_timescale: u32,
        media_start_value: i64,
    },
}

/// The most recent runtime error.
#[derive(Debug, PartialEq, Eq)]
pub struct RuntimeErrorRecord {
    pub track_id: String,
    pub error_code: i32,
    pub message: String,
    pub t_us: u64,
    pub recoverable: bool,
}

impl Clone for RuntimeErrorRecord {
    fn clone(&self) -> (r: Self)
        ensures
            r == *self,
    {
        RuntimeErrorRecord {
            track_id: self.track_id.clone(),
            error_code: self.error_code,
            message: self.message.clone(),
            t_us: self.t_us,
            recoverable: self.recoverable,
        }
    }
}

impl SessionEvent {
    /// The error that the event reports, if it reports one.
    pub open spec fn error(self) -> Option<RuntimeErrorRecord> {
        match self {
            SessionEvent::RuntimeError { track_id, error_code, message, t_us, recoverable } => Some(
                RuntimeErrorRecord { track_id, error_code, message, t_us, recoverable },
            ),
            SessionEvent::SegmentRotated { .. } => None,
        }
    }

    /// The error that the event reports, if it reports one.
    pub fn runtime_error(&self) -> (r: Option<RuntimeErrorRecord>)
        ensures
            r == self.error(),
    {
        match self {
            SessionEvent::RuntimeError { track_id, error_code, message, t_us, recoverable } => Some(
                RuntimeErrorRecord {
                    track_id: track_id.clone(),
                    error_code: *error_code,
                    message: message.clone(),
                    t_us: *t_us,
                    recoverable: *recoverable,
                },
            ),
            SessionEvent::SegmentRotated { .. } => None,
        }
    }
}

/// What is remembered of the active session's errors.
pub struct SessionDiagnostics {
    last_runtime_error: Option<RuntimeErrorRecord>,
    last_runtime_error_t_us: u64,
    gaps_total: u64,
}

impl SessionDiagnostics {
    /// The most recent error.
    pub closed spec fn last(self) -> Option<RuntimeErrorRecord> {
        self.last_runtime_error
    }

    /// The time of the most recent error, or zero.
    pub closed spec fn last_t_us(self) -> nat {
        self.last_runtime_error_t_us as nat
    }

    /// The number of errors, saturating.
    pub closed spec fn gaps(self) -> nat {
        self.gaps_total as nat
    }

    pub fn new() -> (d: Self)
        ensures
            d.last() is None,
            d.last_t_us() == 0,
            d.gaps() == 0,
    {
        SessionDiagnostics {
            last_runtime_error: None,
            last_runtime_error_t_us: 0,
            gaps_total: 0,
        }
    }

    /// Takes an event in. An error is remembered, counted and returned; other
    /// events change nothing.
    pub fn apply(&mut self, event: &SessionEvent) -> (r: Option<RuntimeErrorRecord>)
        ensures
            r == event.error(),
            match event.error() {
                Some(e) => {
                    &&& final(self).last() == Some(e)
                    &&& final(self).last_t_us() == e.t_us
                    &&& final(self).gaps() == if old(self).gaps() < u64::MAX {
                        old(self).gaps() + 1
                    } else {
                        u64::MAX as nat
                    }
                },
                None => *final(self) == *old(self),
            },
    {
        match event.runtime_error() {
            Some(record) => {
                self.last_runtime_error = Some(record.clone());
                self.last_runtime_error_t_us = record.t_us;
                self.gaps_total = self.gaps_total.saturating_add(1);
                Some(record)
            },
            None => None,
        }
    }

    pub fn last_runtime_error(&self) -> (r: Option<RuntimeErrorRecord>)
        ensures
            r == self.last(),
    {
        match &self.last_runtime_error {
            Some(record) => Some(record.clone()),
            None => None,
        }
    }

    pub fn last_runtime_error_t_us(&self) -> (t: u64)
        ensures
            t == self.last_t_us(),
    {
        self.last_runtime_error_t_us
    }

    pub fn gaps_total(&self) -> (n: u64)
        ensures
            n == self.gaps(),
    {
        self.gaps_total
    }

    /// Forgets everything, so that a fresh session inherits no errors.
    pub fn reset(&mut self)
        ensures
            final(self).last() is None,
            final(self).last_t_us() == 0,
            final(self).gaps() == 0,
    {
        self.last_runtime_error = None;
        self.last_runtime_error_t_us = 0;
        self.gaps_total = 0;
    }
}

/// An error of a track is told with all that is known of it; other events tell none.
pub proof fn errors_are_told_in_full(e: SessionEvent)
    ensures
        e is RuntimeError <==> e.error() is Some,
        e.error() matches Some(r) ==> r.track_id == e->RuntimeError_track_id && r.error_code
            == e->error_code && r.message == e->message && r.t_us == e->t_us && r.recoverable
            == e->recoverable,
{
}

} // verus!
