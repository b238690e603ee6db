use vstd::prelude::*;
use crate::types::{AdapterError, ScanFilter};

verus! {

/// Where a scan session stands. `Starting` and `Stopping` last while the
/// platform carries out a start or a stop that the session asked for; no
/// lock is held across that call, and the platform's answer is reported back.
#[derive(Clone, Copy, Debug, PartialEq, Eq, Structural)]
pub enum ScanState {
    Idle,
    Starting,
    Scanning,
    Stopping,
}

/// Asking to start: only an idle session starts. Any other state answers
/// `AlreadyScanning` and stays as it is (the strict policy).
pub open spec fn start_next(s: ScanState) -> (ScanState, Result<(), AdapterError>) {
    if s == ScanState::Idle {
        (ScanState::Starting, Ok(()))
    } else {
        (s, Err(AdapterError::AlreadyScanning))
    }
}

/// The platform's answer to a start: success makes the session scan, failure
/// leaves it idle with `PlatformUnavailable`. With no start pending the
/// answer changes nothing.
pub open spec fn started_next(s: ScanState, ok: bool) -> (ScanState, Result<(), AdapterError>) {
    if s == ScanState::Starting {
        if ok {
            (ScanState::Scanning, Ok(()))
        } else {
            (ScanState::Idle, Err(AdapterError::PlatformUnavailable))
        }
    } else {
        (s, Ok(()))
    }
}

/// Asking to stop: a scanning session asks the platform to stop (`true`);
/// in any other state stopping is a no-op that succeeds (`false`).
pub open spec fn stop_next(s: ScanState) -> (ScanState, bool) {
    if s == ScanState::Scanning {
        (ScanState::Stopping, true)
    } else {
        (s, false)
    }
}

/// The platform's answer to a stop: success makes the session idle, failure
/// keeps it scanning with `PlatformUnavailable`, since the radio may still be
/// active. With no stop pending the answer changes nothing.
pub open spec fn stopped_next(s: ScanState, ok: bool) -> (ScanState, Result<(), AdapterError>) {
    if s == ScanState::Stopping {
        if ok {
            (ScanState::Idle, Ok(()))
        } else {
            (ScanState::Scanning, Err(AdapterError::PlatformUnavailable))
        }
    } else {
        (s, Ok(()))
    }
}

/// The scan session: its state and the filter of the scan it runs.
#[derive(Debug)]
pub struct ScanSession {
    state: ScanState,
    filter: Option<ScanFilter>,
}

impl ScanSession {
    pub closed spec fn spec_state(&self) -> ScanState {
        self.state
    }

    /// The services of the filter held by the session, if one is held.
    pub closed spec fn spec_filter(&self) -> Option<Seq<u128>> {
        match self.filter {
            Some(f) => Some(f.services@),
            None => None,
        }
    }

    pub fn new() -> (r: ScanSession)
        ensures
            r.spec_state() == ScanState::Idle,
    {
        ScanSession { state: ScanState::Idle, filter: None }
    }

    pub fn state(&self) -> (r: ScanState)
        ensures
            r == self.spec_state(),
    {
        self.state
    }

    /// The filter of the scan being started or run, if any.
    pub fn filter(&self) -> (r: Option<&ScanFilter>)
        ensures
            self.spec_state() == ScanState::Idle ==> r is None,
            self.spec_state() != ScanState::Idle ==> match r {
                Some(f) => self.spec_filter() == Some(f.services@),
                None => self.spec_filter() is None,
            },
    {
        if self.state == ScanState::Idle {
            None
        } else {
            match &self.filter {
                Some(f) => Some(f),
                None => None,
            }
        }
    }

    /// Asks to start scanning with `filter`. On `Ok` the caller starts the
    /// platform's discovery and reports the outcome with `start_reported`.
    pub fn start(&mut self, filter: ScanFilter) -> (r: Result<(), AdapterError>)
        ensures
            (final(self).spec_state(), r) == start_next(old(self).spec_state()),
            r is Ok ==> final(self).spec_filter() == Some(filter.services@),
            r is Err ==> final(self).spec_filter() == old(self).spec_filter(),
    {
        if self.state == ScanState::Idle {
            self.state = ScanState::Starting;
            self.filter = Some(filter);
            Ok(())
        } else {
            Err(AdapterError::AlreadyScanning)
        }
    }

    /// Takes the platform's answer to a start.
    pub fn start_reported(&mut self, ok: bool) -> (r: Result<(), AdapterError>)
        ensures
            (final(self).spec_state(), r) == started_next(old(self).spec_state(), ok),
            final(self).spec_state() != ScanState::Idle ==> final(self).spec_filter()
                == old(self).spec_filter(),
    {
        if self.state == ScanState::Starting {
            if ok {
                self.state = ScanState::Scanning;
                Ok(())
            } else {
                self.state = ScanState::Idle;
                self.filter = None;
                Err(AdapterError::PlatformUnavailable)
            }
        } else {
            Ok(())
        }
    }

    /// Asks to stop scanning. `true` tells the caller to stop the platform's
    /// discovery and report the outcome with `stop_reported`.
    pub fn stop(&mut self) -> (r: bool)
        ensures
            (final(self).spec_state(), r) == stop_next(old(self).spec_state()),
            final(self).spec_state() != ScanState::Idle ==> final(self).spec_filter()
                == old(self).spec_filter(),
    {
        if self.state == ScanState::Scanning {
            self.state = ScanState::Stopping;
            true
        } else {
            false
        }
    }

    /// Takes the platform's answer to a stop.
    pub fn stop_reported(&mut self, ok: bool) -> (r: Result<(), AdapterError>)
        ensures
            (final(self).spec_state(), r) == stopped_next(old(self).spec_state(), ok),
            final(self).spec_state() != ScanState::Idle ==> final(self).spec_filter()
                == old(self).spec_filter(),
    {
        if self.state == ScanState::Stopping {
            if ok {
                self.state = ScanState::Idle;
                self.filter = None;
                Ok(())
            } else {
                self.state = ScanState::Scanning;
                Err(AdapterError::PlatformUnavailable)
            }
        } else {
            Ok(())
        }
    }
}

/// No double scanning is left behind: from an idle session, a start that the
/// platform accepts, a second start (refused with `AlreadyScanning`, nothing
/// changed) and one stop that the platform accepts bring the session back
/// to idle.
pub proof fn lemma_restart_then_stop_is_idle()
    ensures
        ({
            let (s1, r1) = start_next(ScanState::Idle);
            let (s2, r2) = started_next(s1, true);
            let (s3, r3) = start_next(s2);
            let (s4, asked) = stop_next(s3);
            let (s5, r5) = stopped_next(s4, true);
            &&& r1 is Ok && r2 is Ok && r5 is Ok
            &&& r3 == Err::<(), AdapterError>(AdapterError::AlreadyScanning)
            &&& s3 == s2
            &&& asked
            &&& s5 == ScanState::Idle
        }),
{
}

/// A refused start changes nothing, whatever state it meets: it can leave no
/// second scan behind.
pub proof fn lemma_refused_start_changes_nothing(s: ScanState)
    ensures
        start_next(s).1 is Err ==> start_next(s).0 == s,
        start_next(s).1 is Err <==> s != ScanState::Idle,
{
}

} // verus!
