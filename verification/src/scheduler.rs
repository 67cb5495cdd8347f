//! Whether the collection loop runs, and what came of a collection.
use vstd::prelude::*;
use vstd::string::*;
use crate::error::{CollectError, SchedulerError};
use crate::snapshot::SystemSnapshot;
use crate::time::Duration;

verus! {

/// How long a sink may take over one snapshot, in seconds.
pub const DEFAULT_SINK_WRITE_TIMEOUT_SECS: u64 = 5;

/// The state of the collection loop.
#[derive(Debug, Clone, Copy)]
pub struct Scheduler {
    interval: Duration,
    sink_write_timeout: Duration,
    running: bool,
}

impl Scheduler {
    /// Whether the loop runs.
    pub closed spec fn running(&self) -> bool {
        self.running
    }

    /// The time between two collections.
    pub closed spec fn period(&self) -> Duration {
        self.interval
    }

    /// How long a sink may take.
    pub closed spec fn patience(&self) -> Duration {
        self.sink_write_timeout
    }

    /// A loop that does not run yet.
    pub fn new(interval: Duration) -> (r: Scheduler)
        ensures
            !r.running(),
            r.period() == interval,
            r.patience() == crate::config::seconds(DEFAULT_SINK_WRITE_TIMEOUT_SECS as nat),
    {
        Scheduler {
            interval,
            sink_write_timeout: Duration::from_secs(DEFAULT_SINK_WRITE_TIMEOUT_SECS),
            running: false,
        }
    }

    /// The same loop with another patience for sinks.
    pub fn with_sink_write_timeout(self, timeout: Duration) -> (r: Scheduler)
        ensures
            r.running() == self.running(),
            r.period() == self.period(),
            r.patience() == timeout,
    {
        Scheduler {
            interval: self.interval,
            sink_write_timeout: timeout,
            running: self.running,
        }
    }

    /// The time between two collections.
    pub fn interval(&self) -> (r: Duration)
        ensures
            r == self.period(),
    {
        self.interval
    }

    /// How long a sink may take.
    pub fn sink_write_timeout(&self) -> (r: Duration)
        ensures
            r == self.patience(),
    {
        self.sink_write_timeout
    }

    /// Starts the loop. One that runs cannot be started.
    pub fn start(&mut self) -> (r: Result<(), SchedulerError>)
        ensures
            r is Ok == !old(self).running(),
            r is Err ==> r->Err_0 == SchedulerError::AlreadyRunning,
            final(self).running(),
            final(self).period() == old(self).period(),
            final(self).patience() == old(self).patience(),
    {
        if self.running {
            return Err(SchedulerError::AlreadyRunning);
        }
        self.running = true;
        Ok(())
    }

    /// Stops the loop; whether it ran.
    pub fn stop(&mut self) -> (r: bool)
        ensures
            r == old(self).running(),
            !final(self).running(),
            final(self).period() == old(self).period(),
            final(self).patience() == old(self).patience(),
    {
        let ran: bool = self.running;
        self.running = false;
        ran
    }
}

/// How a collection on another thread ended.
pub enum Ending {
    /// It took too long
    TimedOut,
    /// The thread failed, in its own words
    Failed(String),
    Done(Result<SystemSnapshot, CollectError>),
}

/// What came of a collection.
pub fn collect_snapshot(ending: Ending) -> (r: Result<SystemSnapshot, CollectError>)
    ensures
        r == match ending {
            Ending::TimedOut => Err(CollectError::Timeout),
            Ending::Failed(message) => Err(CollectError::System { message }),
            Ending::Done(result) => result,
        },
{
    match ending {
        Ending::TimedOut => Err(CollectError::Timeout),
        Ending::Failed(message) => Err(CollectError::System { message }),
        Ending::Done(result) => result,
    }
}

/// A sink that prints snapshots as JSON.
#[derive(Debug, Clone, Copy, PartialEq, Eq, Structural)]
pub struct StdoutSink {
    pretty: bool,
}

impl StdoutSink {
    /// Whether the JSON is laid out over several lines.
    pub closed spec fn laid_out(&self) -> bool {
        self.pretty
    }

    /// One line for each snapshot.
    pub fn new() -> (r: StdoutSink)
        ensures
            !r.laid_out(),
    {
        StdoutSink { pretty: false }
    }

    /// Several lines for each snapshot.
    pub fn pretty() -> (r: StdoutSink)
        ensures
            r.laid_out(),
    {
        StdoutSink { pretty: true }
    }

    /// Whether the JSON is laid out over several lines.
    pub fn is_pretty(&self) -> (r: bool)
        ensures
            r == self.laid_out(),
    {
        self.pretty
    }
}

} // verus!
