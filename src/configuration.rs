//! Session settings: reading the options and checking their combination.

use std::collections::HashSet;

use vstd::prelude::*;

verus! {

/// How samples are triggered.
///
/// `Signal` arms one interval timer per thread whose expiry interrupts that
/// thread; `TimerThread` runs one background thread that asks the runtime to
/// run the capture at its next safe point.
#[derive(Clone, Copy, Debug, PartialEq, Eq, Structural)]
pub enum Scheduler {
    Signal,
    TimerThread,
}

/// Which clock the sampling interval is measured on.
#[derive(Clone, Copy, Debug, PartialEq, Eq, Structural)]
pub enum TimeMode {
    CpuTime,
    WallTime,
}

/// Which threads are sampled: every thread, present and future, or a fixed set.
#[derive(Debug, PartialEq)]
pub enum Threads {
    All,
    Targeted(HashSet<u64>),
}

/// The settings of one profiling session.
#[derive(Debug)]
pub struct Configuration {
    pub scheduler: Scheduler,
    pub interval_ms: u64,
    pub time_mode: TimeMode,
    pub target_ruby_threads: Threads,
    pub use_experimental_serializer: bool,
}

/// Sampling interval used when none is given, in milliseconds.
pub const DEFAULT_INTERVAL_MS: u64 = 9;

/// Error: the timer-thread scheduler cannot measure CPU time.
pub const TIMER_THREAD_CPU_MESSAGE: &'static str = "TimerThread scheduler does not support `time_mode: :cpu`.";

/// Error: the timer-thread scheduler cannot follow every thread.
pub const TIMER_THREAD_ALL_MESSAGE: &'static str = "TimerThread scheduler does not support `threads: :all` at the moment. Consider using `threads: Thread.list` for watching all threads at profiler start.";

/// Error: the interval is not a positive number of milliseconds.
pub const INVALID_INTERVAL_MESSAGE: &'static str = "Invalid interval. The interval must be a positive number of milliseconds.";

/// Error: the time mode is not a known name.
pub const INVALID_TIME_MODE_MESSAGE: &'static str = "Invalid time mode. Valid values are 'cpu' and 'wall'.";

/// Error: the scheduler is not a known name.
pub const INVALID_SCHEDULER_MESSAGE: &'static str = "Invalid scheduler. Valid values are ':signal' and ':timer_thread'.";

/// Error: the signal scheduler was asked for where the platform lacks it.
pub const UNSUPPORTED_SCHEDULER_MESSAGE: &'static str = "Signal scheduler is not supported on this platform.";

/// The scheduler a name stands for.
pub open spec fn scheduler_named(s: Seq<char>) -> Option<Scheduler> {
    if s == "signal"@ || s == "interrupt"@ {
        Some(Scheduler::Signal)
    } else if s == "timer_thread"@ {
        Some(Scheduler::TimerThread)
    } else {
        None
    }
}

/// The time mode a name stands for.
pub open spec fn time_mode_named(s: Seq<char>) -> Option<TimeMode> {
    if s == "cpu"@ {
        Some(TimeMode::CpuTime)
    } else if s == "wall"@ {
        Some(TimeMode::WallTime)
    } else {
        None
    }
}

/// The combination rules: the timer-thread scheduler measures wall time only,
/// and samples only a fixed set of threads.
pub open spec fn combination_ok(c: Configuration) -> bool {
    c.scheduler == Scheduler::TimerThread ==> (c.time_mode == TimeMode::WallTime
        && c.target_ruby_threads is Targeted)
}

fn same_text(a: &str, b: &str) -> (r: bool)
    ensures
        r == (a@ == b@),
{
    let x: String = a.to_owned();
    let y: String = b.to_owned();
    x == y
}

impl Scheduler {
    /// Reads a scheduler name: `signal` (also `interrupt`) or `timer_thread`.
    pub fn from_name(s: &str) -> (r: Option<Scheduler>)
        ensures
            r == scheduler_named(s@),
    {
        if same_text(s, "signal") || same_text(s, "interrupt") {
            Some(Scheduler::Signal)
        } else if same_text(s, "timer_thread") {
            Some(Scheduler::TimerThread)
        } else {
            None
        }
    }

    /// The scheduler used when none is given: `Signal` where the platform
    /// supports it, else `TimerThread`.
    pub fn default_for(signal_supported: bool) -> (r: Scheduler)
        ensures
            r == (if signal_supported {
                Scheduler::Signal
            } else {
                Scheduler::TimerThread
            }),
    {
        if signal_supported {
            Scheduler::Signal
        } else {
            Scheduler::TimerThread
        }
    }
}

impl TimeMode {
    /// Reads a time mode name: `cpu` or `wall`.
    pub fn from_name(s: &str) -> (r: Option<TimeMode>)
        ensures
            r == time_mode_named(s@),
    {
        if same_text(s, "cpu") {
            Some(TimeMode::CpuTime)
        } else if same_text(s, "wall") {
            Some(TimeMode::WallTime)
        } else {
            None
        }
    }

    /// The time mode used when none is given: CPU time where the signal
    /// scheduler is available, else wall time.
    pub fn default_for(signal_supported: bool) -> (r: TimeMode)
        ensures
            r == (if signal_supported {
                TimeMode::CpuTime
            } else {
                TimeMode::WallTime
            }),
    {
        if signal_supported {
            TimeMode::CpuTime
        } else {
            TimeMode::WallTime
        }
    }
}

impl Threads {
    /// The threads sampled when none are named: every thread for the signal
    /// scheduler, none for the timer-thread scheduler.
    pub fn default_for(scheduler: Scheduler) -> (r: Threads)
        ensures
            scheduler == Scheduler::Signal ==> r is All,
            scheduler == Scheduler::TimerThread ==> (r matches Threads::Targeted(set) && set@
                == Set::<u64>::empty()),
    {
        match scheduler {
            Scheduler::Signal => Threads::All,
            Scheduler::TimerThread => Threads::Targeted(HashSet::new()),
        }
    }
}

/// Splits an interval into whole seconds and the remaining nanoseconds, as an
/// interval timer takes it.
pub fn interval_timer_parts(interval_ms: u64) -> (r: (i64, i64))
    ensures
        r.0 as int * 1_000_000_000 + r.1 as int == interval_ms as int * 1_000_000,
        0 <= r.1 < 1_000_000_000,
        r.0 >= 0,
{
    let nanos: u128 = interval_ms as u128 * 1_000_000;
    let seconds_part: u128 = nanos / 1_000_000_000;
    let nanos_part: u128 = nanos % 1_000_000_000;
    assert(seconds_part <= interval_ms as u128) by (nonlinear_arith)
        requires
            nanos == interval_ms as u128 * 1_000_000,
            seconds_part == nanos / 1_000_000_000,
    ;
    (seconds_part as i64, nanos_part as i64)
}

impl Configuration {
    /// Checks the combination rules: the timer-thread scheduler cannot
    /// measure CPU time, nor sample every thread.
    pub fn validate(&self) -> (r: Result<(), String>)
        ensures
            r is Ok <==> combination_ok(*self),
            r matches Err(m) ==> (if self.time_mode == TimeMode::CpuTime {
                m@ == TIMER_THREAD_CPU_MESSAGE@
            } else {
                m@ == TIMER_THREAD_ALL_MESSAGE@
            }),
    {
        if self.scheduler == Scheduler::TimerThread && self.time_mode == TimeMode::CpuTime {
            return Err(TIMER_THREAD_CPU_MESSAGE.to_owned());
        }
        if self.scheduler == Scheduler::TimerThread && matches!(self.target_ruby_threads, Threads::All) {
            return Err(TIMER_THREAD_ALL_MESSAGE.to_owned());
        }
        Ok(())
    }

    /// Builds and checks a configuration from the options a session was
    /// started with; `None` means the option was not given.
    ///
    /// Checks come in this order, and the first that fails gives the error: the
    /// interval must be positive; a time mode or scheduler name must be known;
    /// the signal scheduler needs `signal_supported`; then the combination
    /// rules of `validate`. Options not given take their defaults.
    pub fn from_options(
        interval_ms: Option<i64>,
        threads: Option<Threads>,
        time_mode: Option<&str>,
        scheduler: Option<&str>,
        use_experimental_serializer: bool,
        signal_supported: bool,
    ) -> (r: Result<Configuration, String>)
        ensures
            !interval_ok(interval_ms) ==> (r matches Err(m) && m@ == INVALID_INTERVAL_MESSAGE@),
            interval_ok(interval_ms) && !time_mode_ok(time_mode) ==> (r matches Err(m) && m@
                == INVALID_TIME_MODE_MESSAGE@),
            interval_ok(interval_ms) && time_mode_ok(time_mode) && !scheduler_ok(scheduler) ==> (
            r matches Err(m) && m@ == INVALID_SCHEDULER_MESSAGE@),
            interval_ok(interval_ms) && time_mode_ok(time_mode) && scheduler_ok(scheduler)
                && resolved_scheduler(scheduler, signal_supported) == Scheduler::Signal
                && !signal_supported ==> (r matches Err(m) && m@ == UNSUPPORTED_SCHEDULER_MESSAGE@),
            r matches Ok(c) ==> {
                &&& interval_ok(interval_ms) && time_mode_ok(time_mode) && scheduler_ok(scheduler)
                &&& c.interval_ms == resolved_interval(interval_ms)
                &&& c.time_mode == resolved_time_mode(time_mode, signal_supported)
                &&& c.scheduler == resolved_scheduler(scheduler, signal_supported)
                &&& (c.scheduler == Scheduler::Signal ==> signal_supported)
                &&& (threads matches Some(t) ==> c.target_ruby_threads == t)
                &&& (threads is None ==> (if c.scheduler == Scheduler::Signal {
                    c.target_ruby_threads is All
                } else {
                    c.target_ruby_threads matches Threads::Targeted(set) && set@ == Set::<
                        u64,
                    >::empty()
                }))
                &&& c.use_experimental_serializer == use_experimental_serializer
                &&& combination_ok(c)
            },
            interval_ok(interval_ms) && time_mode_ok(time_mode) && scheduler_ok(scheduler) && (
            resolved_scheduler(scheduler, signal_supported) == Scheduler::Signal
                ==> signal_supported) ==> (r is Ok <==> (resolved_scheduler(
                scheduler,
                signal_supported,
            ) == Scheduler::TimerThread ==> (resolved_time_mode(time_mode, signal_supported)
                == TimeMode::WallTime && !(threads matches Some(Threads::All))))),
    {
        let interval: u64 = match interval_ms {
            Some(v) => {
                if v <= 0 {
                    return Err(INVALID_INTERVAL_MESSAGE.to_owned());
                }
                v as u64
            },
            None => DEFAULT_INTERVAL_MS,
        };
        let mode = match time_mode {
            Some(name) => match TimeMode::from_name(name) {
                Some(m) => m,
                None => {
                    return Err(INVALID_TIME_MODE_MESSAGE.to_owned());
                },
            },
            None => TimeMode::default_for(signal_supported),
        };
        let sched = match scheduler {
            Some(name) => match Scheduler::from_name(name) {
                Some(s) => s,
                None => {
                    return Err(INVALID_SCHEDULER_MESSAGE.to_owned());
                },
            },
            None => Scheduler::default_for(signal_supported),
        };
        if sched == Scheduler::Signal && !signal_supported {
            return Err(UNSUPPORTED_SCHEDULER_MESSAGE.to_owned());
        }
        let targets = match threads {
            Some(t) => t,
            None => Threads::default_for(sched),
        };
        let configuration = Configuration {
            scheduler: sched,
            interval_ms: interval,
            time_mode: mode,
            target_ruby_threads: targets,
            use_experimental_serializer,
        };
        match configuration.validate() {
            Ok(()) => Ok(configuration),
            Err(m) => Err(m),
        }
    }
}

/// An interval option is acceptable when absent or positive.
pub open spec fn interval_ok(v: Option<i64>) -> bool {
    v matches Some(x) ==> x > 0
}

/// The interval in effect for an interval option.
pub open spec fn resolved_interval(v: Option<i64>) -> u64 {
    match v {
        Some(x) => x as u64,
        None => DEFAULT_INTERVAL_MS,
    }
}

/// A time mode option is acceptable when absent or a known name.
pub open spec fn time_mode_ok(name: Option<&str>) -> bool {
    name matches Some(n) ==> time_mode_named(n@) is Some
}

/// The time mode in effect for a time mode option.
pub open spec fn resolved_time_mode(name: Option<&str>, signal_supported: bool) -> TimeMode {
    match name {
        Some(n) => time_mode_named(n@)->Some_0,
        None => if signal_supported {
            TimeMode::CpuTime
        } else {
            TimeMode::WallTime
        },
    }
}

/// A scheduler option is acceptable when absent or a known name.
pub open spec fn scheduler_ok(name: Option<&str>) -> bool {
    name matches Some(n) ==> scheduler_named(n@) is Some
}

/// The scheduler in effect for a scheduler option.
pub open spec fn resolved_scheduler(name: Option<&str>, signal_supported: bool) -> Scheduler {
    match name {
        Some(n) => scheduler_named(n@)->Some_0,
        None => if signal_supported {
            Scheduler::Signal
        } else {
            Scheduler::TimerThread
        },
    }
}

} // verus!
