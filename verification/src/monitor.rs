//! The run state of the input monitor: when monitoring may start or stop and
//! when recording may start or stop. Opening and closing the audio streams is
//! left to the caller, who reports back when a stream has started.

use vstd::prelude::*;

use crate::errors::MonitorError;

verus! {

/// Whether the input monitor is capturing input, and whether it is recording
/// what it captures. It only records while it runs.
#[derive(Debug, Clone, Copy)]
pub struct MonitorStatus {
    running: bool,
    recording: bool,
}

impl MonitorStatus {
    #[verifier::type_invariant]
    spec fn records_only_while_running(self) -> bool {
        self.recording ==> self.running
    }

    /// Whether input is being captured.
    pub closed spec fn running_spec(self) -> bool {
        self.running
    }

    /// Whether captured input is being recorded.
    pub closed spec fn recording_spec(self) -> bool {
        self.recording
    }

    /// Not running, not recording.
    pub fn new() -> (r: Self)
        ensures
            !r.running_spec(),
            !r.recording_spec(),
    {
        MonitorStatus { running: false, recording: false }
    }

    /// Whether input is being captured.
    pub fn is_running(&self) -> (r: bool)
        ensures
            r == self.running_spec(),
    {
        self.running
    }

    /// Whether captured input is being recorded; never while not running.
    pub fn is_recording(&self) -> (r: bool)
        ensures
            r == self.recording_spec(),
            r ==> self.running_spec(),
    {
        proof {
            use_type_invariant(self);
        }
        self.recording
    }

    /// Whether monitoring may start: not while it already runs.
    pub fn check_start(&self) -> (r: Result<(), MonitorError>)
        ensures
            !self.running_spec() <==> r is Ok,
            self.running_spec() ==> r matches Err(MonitorError::AlreadyRunning),
    {
        if self.running {
            Err(MonitorError::AlreadyRunning)
        } else {
            Ok(())
        }
    }

    /// The input stream has started: the monitor runs.
    pub fn started(&mut self)
        ensures
            final(self).running_spec(),
            final(self).recording_spec() == old(self).recording_spec(),
    {
        self.running = true;
    }

    /// Stop monitoring; recording stops too. Refused when not running.
    pub fn stop(&mut self) -> (r: Result<(), MonitorError>)
        ensures
            !final(self).running_spec(),
            !final(self).recording_spec(),
            old(self).running_spec() <==> r is Ok,
            !old(self).running_spec() ==> r matches Err(MonitorError::NotRunning),
    {
        self.recording = false;
        if !self.running {
            return Err(MonitorError::NotRunning);
        }
        self.running = false;
        Ok(())
    }

    /// Start recording; refused when the monitor does not run.
    pub fn start_recording(&mut self) -> (r: Result<(), MonitorError>)
        ensures
            old(self).running_spec() <==> r is Ok,
            !old(self).running_spec() ==> r matches Err(MonitorError::NotRunning),
            final(self).running_spec() == old(self).running_spec(),
            final(self).recording_spec() == (old(self).running_spec() || old(self).recording_spec()),
    {
        proof {
            use_type_invariant(&*self);
        }
        if !self.running {
            return Err(MonitorError::NotRunning);
        }
        self.recording = true;
        Ok(())
    }

    /// Stop recording; refused when not recording.
    pub fn stop_recording(&mut self) -> (r: Result<(), MonitorError>)
        ensures
            old(self).recording_spec() <==> r is Ok,
            !old(self).recording_spec() ==> r matches Err(MonitorError::NotRecording),
            final(self).running_spec() == old(self).running_spec(),
            !final(self).recording_spec(),
    {
        if !self.recording {
            return Err(MonitorError::NotRecording);
        }
        self.recording = false;
        Ok(())
    }
}

} // verus!
