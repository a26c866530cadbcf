use std::collections::HashSet;

use pf2::configuration::{
    interval_timer_parts, Configuration, Scheduler, Threads, TimeMode, DEFAULT_INTERVAL_MS,
    INVALID_INTERVAL_MESSAGE, INVALID_SCHEDULER_MESSAGE, INVALID_TIME_MODE_MESSAGE,
    TIMER_THREAD_ALL_MESSAGE, TIMER_THREAD_CPU_MESSAGE, UNSUPPORTED_SCHEDULER_MESSAGE,
};

#[test]
fn timer_thread_with_cpu_time_fails_validation() {
    let c = Configuration {
        scheduler: Scheduler::TimerThread,
        interval_ms: 9,
        time_mode: TimeMode::CpuTime,
        target_ruby_threads: Threads::Targeted(HashSet::new()),
        use_experimental_serializer: false,
    };
    assert_eq!(c.validate(), Err(TIMER_THREAD_CPU_MESSAGE.to_owned()));

    let r = Configuration::from_options(None, None, Some("cpu"), Some("timer_thread"), false, true);
    assert_eq!(r.err(), Some(TIMER_THREAD_CPU_MESSAGE.to_owned()));
}

#[test]
fn timer_thread_with_all_threads_fails_validation() {
    let c = Configuration {
        scheduler: Scheduler::TimerThread,
        interval_ms: 9,
        time_mode: TimeMode::WallTime,
        target_ruby_threads: Threads::All,
        use_experimental_serializer: false,
    };
    assert_eq!(c.validate(), Err(TIMER_THREAD_ALL_MESSAGE.to_owned()));
}

#[test]
fn valid_combinations_pass() {
    let c = Configuration {
        scheduler: Scheduler::Signal,
        interval_ms: 9,
        time_mode: TimeMode::CpuTime,
        target_ruby_threads: Threads::All,
        use_experimental_serializer: false,
    };
    assert_eq!(c.validate(), Ok(()));
    let c = Configuration {
        scheduler: Scheduler::TimerThread,
        interval_ms: 5,
        time_mode: TimeMode::WallTime,
        target_ruby_threads: Threads::Targeted(HashSet::from([1, 2])),
        use_experimental_serializer: true,
    };
    assert_eq!(c.validate(), Ok(()));
}

#[test]
fn names_are_read() {
    assert_eq!(Scheduler::from_name("signal"), Some(Scheduler::Signal));
    assert_eq!(Scheduler::from_name("interrupt"), Some(Scheduler::Signal));
    assert_eq!(Scheduler::from_name("timer_thread"), Some(Scheduler::TimerThread));
    assert_eq!(Scheduler::from_name("thread"), None);
    assert_eq!(TimeMode::from_name("cpu"), Some(TimeMode::CpuTime));
    assert_eq!(TimeMode::from_name("wall"), Some(TimeMode::WallTime));
    assert_eq!(TimeMode::from_name("Wall"), None);
}

#[test]
fn defaults_follow_platform_support() {
    let c = Configuration::from_options(None, None, None, None, false, true).unwrap();
    assert_eq!(c.scheduler, Scheduler::Signal);
    assert_eq!(c.time_mode, TimeMode::CpuTime);
    assert_eq!(c.interval_ms, DEFAULT_INTERVAL_MS);
    assert_eq!(c.target_ruby_threads, Threads::All);
    assert!(!c.use_experimental_serializer);

    let c = Configuration::from_options(Some(20), None, None, None, true, false).unwrap();
    assert_eq!(c.scheduler, Scheduler::TimerThread);
    assert_eq!(c.time_mode, TimeMode::WallTime);
    assert_eq!(c.interval_ms, 20);
    assert_eq!(c.target_ruby_threads, Threads::Targeted(HashSet::new()));
    assert!(c.use_experimental_serializer);
}

#[test]
fn explicit_threads_are_kept() {
    let threads = Threads::Targeted(HashSet::from([5, 6]));
    let c =
        Configuration::from_options(Some(1), Some(threads), Some("wall"), Some("signal"), false, true)
            .unwrap();
    assert_eq!(c.target_ruby_threads, Threads::Targeted(HashSet::from([5, 6])));
    assert_eq!(c.time_mode, TimeMode::WallTime);
}

#[test]
fn each_option_error_is_reported() {
    assert_eq!(
        Configuration::from_options(Some(-1), None, None, None, false, true).err(),
        Some(INVALID_INTERVAL_MESSAGE.to_owned())
    );
    assert_eq!(
        Configuration::from_options(Some(0), None, None, None, false, true).err(),
        Some(INVALID_INTERVAL_MESSAGE.to_owned())
    );
    assert_eq!(
        Configuration::from_options(None, None, Some("gpu"), None, false, true).err(),
        Some(INVALID_TIME_MODE_MESSAGE.to_owned())
    );
    assert_eq!(
        Configuration::from_options(None, None, None, Some("fast"), false, true).err(),
        Some(INVALID_SCHEDULER_MESSAGE.to_owned())
    );
    assert_eq!(
        Configuration::from_options(None, None, Some("wall"), Some("signal"), false, false).err(),
        Some(UNSUPPORTED_SCHEDULER_MESSAGE.to_owned())
    );
    assert_eq!(
        Configuration::from_options(None, Some(Threads::All), Some("wall"), Some("timer_thread"), false, true)
            .err(),
        Some(TIMER_THREAD_ALL_MESSAGE.to_owned())
    );
}

#[test]
fn interval_splits_into_seconds_and_nanoseconds() {
    assert_eq!(interval_timer_parts(9), (0, 9_000_000));
    assert_eq!(interval_timer_parts(1500), (1, 500_000_000));
    assert_eq!(interval_timer_parts(0), (0, 0));
    assert_eq!(interval_timer_parts(u64::MAX), (18_446_744_073_709_551, 615_000_000));
}
