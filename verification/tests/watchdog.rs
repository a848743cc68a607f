//! End-to-end tests against real processes: signal delivery, reaping, and
//! session timing.

use killrs::monitor::{monitor, monitor_cycle, should_kill, CycleAction, MonitorState};
use killrs::resource::{run_time_from_sample, Aggression, Resource, ResourceOptions};
use sysinfo::PidExt;

/// A child process that sleeps for the given number of seconds.
fn spawn_sleeper(secs: &str) -> (duct::Handle, i32) {
    let handle = duct::cmd("sleep", [secs]).start().unwrap();
    let pid = handle.pids()[0] as i32;
    (handle, pid)
}

/// Blocks the test for about the given time.
fn wait_millis(ms: u64) {
    let (tx, rx) = std::sync::mpsc::channel::<()>();
    let _ = rx.recv_timeout(std::time::Duration::from_millis(ms));
    drop(tx);
}

/// The test process's own PID.
fn own_pid() -> i32 {
    sysinfo::get_current_pid().unwrap().as_u32() as i32
}

#[test]
fn monitor_test_should_kill() {
    // create dependency
    let mut invalid_resource = Resource::new(-1, Aggression::Kill, ResourceOptions::SysMem, 1, 0);

    assert!(should_kill(&ResourceOptions::SysMem, 1, 0, &mut invalid_resource).unwrap());
    assert!(!should_kill(&ResourceOptions::SysMem, 1, 1000, &mut invalid_resource).unwrap());
}

#[test]
fn resource_test_should_kill() {
    // create dependency
    let (_handle, pid) = spawn_sleeper("5");
    wait_millis(1500);
    let mut resource_kill = Resource::new(pid, Aggression::Kill, ResourceOptions::RunTime, 1, 0);
    assert!(should_kill(&ResourceOptions::RunTime, 1, 0, &mut resource_kill).unwrap());

    let mut resource_dont_kill =
        Resource::new(pid, Aggression::Kill, ResourceOptions::RunTime, 1, 10);
    assert!(!should_kill(&ResourceOptions::RunTime, 1, 10, &mut resource_dont_kill).unwrap());

    // cleanup
    resource_dont_kill.maybe_kill();
    resource_kill.maybe_kill();
}

#[test]
fn test_kill() {
    let (_handle, pid) = spawn_sleeper("5");
    let mut resource = Resource::new(pid, Aggression::Kill, ResourceOptions::RunTime, 1, 10);

    assert!(resource.pid_exists());
    assert!(resource.maybe_kill());
    assert!(!resource.pid_exists());

    let mut invalid_resource =
        Resource::new(-1, Aggression::Interrupt, ResourceOptions::RunTime, 1, 10);
    assert!(!invalid_resource.maybe_kill());
    assert!(!invalid_resource.pid_exists());

    // cleanup
    resource.maybe_kill();
}

#[test]
fn run_time_sample_defaults_to_zero() {
    // a missing process reads 0, the recoverable miss; a found one reads
    // its seconds
    assert_eq!(run_time_from_sample(None), 0);
    assert_eq!(run_time_from_sample(Some(5)), 5);
    assert_eq!(run_time_from_sample(Some(i32::MAX as u64)), i32::MAX);
}

#[test]
fn run_time_advances() {
    let (_handle, pid) = spawn_sleeper("5");
    let mut resource = Resource::new(pid, Aggression::Kill, ResourceOptions::RunTime, 1, 10);

    assert!(resource.pid_exists());
    assert!(resource.run_time() < 1);
    wait_millis(2000);
    assert!(resource.run_time() > 1);

    // cleanup
    resource.maybe_kill();
}

#[test]
fn test_invalid_resource() {
    let mut resource = Resource::new(-1, Aggression::Kill, ResourceOptions::RunTime, 1, 10);

    assert!(!resource.pid_exists());
    assert!(resource.run_time() == 0);

    // System resource will still be valid
    assert!(resource.sys_mem_percentage() != 0);
    assert!(resource.cpu_util() != 0);
    assert!(resource.cpu_temp() != 0);

    // cleanup
    resource.maybe_kill();
}

#[test]
fn test_sigkill_time() {
    let (handle, pid) = spawn_sleeper("2");

    let mut resource = Resource::new(pid, Aggression::Kill, ResourceOptions::SysMem, 1, 1);

    let before = std::time::Instant::now();
    resource.killrs().unwrap();

    assert!(before.elapsed() < std::time::Duration::from_millis(1500));

    // clean up
    let _ = handle.wait();
}

#[test]
fn live_process_sampling() {
    let (_handle, pid) = spawn_sleeper("5");
    let mut resource = Resource::new(pid, Aggression::Kill, ResourceOptions::ProcMem, 1, 10);

    assert!(resource.pid_exists());
    // just started: under a second of runtime
    assert!(resource.run_time() < 1);
    // a real process owns some private memory; this fails if the sampler
    // does not actually read the accounting file
    assert!(resource.proc_memory().unwrap() > 0);
    assert!(resource.sys_mem_percentage() > 0);

    // cleanup
    resource.maybe_kill();
}

#[test]
fn nonexistent_pid_terminates_in_one_cycle() {
    // a monitor on a PID that does not exist sends nothing and ends at once
    let mut resource = Resource::new(-1, Aggression::Kill, ResourceOptions::RunTime, 1, -1);
    let mut state = MonitorState::start(Aggression::Kill);
    let action = monitor_cycle(&mut resource, &ResourceOptions::RunTime, 1, -1, &mut state);
    assert_eq!(action, Ok(CycleAction::Terminal));
    assert_eq!(state.attempts, 0);
    assert_eq!(state.current_level, Aggression::Kill);

    let before = std::time::Instant::now();
    assert_eq!(resource.killrs(), Ok(()));
    assert!(before.elapsed() < std::time::Duration::from_millis(1000));
}

#[test]
fn uncrossed_threshold_never_escalates() {
    // bounded run: several cycles against a threshold no value can cross
    let mut resource =
        Resource::new(own_pid(), Aggression::Interrupt, ResourceOptions::RunTime, 1, i32::MAX);
    let mut state = MonitorState::start(Aggression::Interrupt);
    for _ in 0..3 {
        let action =
            monitor_cycle(&mut resource, &ResourceOptions::RunTime, 1, i32::MAX, &mut state);
        assert_eq!(action, Ok(CycleAction::Sleep(1)));
    }
    assert_eq!(state.attempts, 0);
    assert_eq!(state.current_level, Aggression::Interrupt);
    assert_eq!(state.backoff_seconds, 1);
}

#[test]
fn immediate_kill_returns_within_one_backoff() {
    // a short-lived child, a threshold already crossed, and level Kill:
    // the session ends within about one backoff interval
    let (_handle, pid) = spawn_sleeper("5");
    let mut resource = Resource::new(pid, Aggression::Kill, ResourceOptions::RunTime, 1, -1);

    let before = std::time::Instant::now();
    resource.killrs().unwrap();
    assert!(before.elapsed() < std::time::Duration::from_millis(1500));

    // the child is confirmed gone
    assert!(!resource.pid_exists());
}

#[test]
fn interrupt_to_kill_escalation_window() {
    // a process that ignores interrupt and terminate: two attempts at
    // Interrupt (1s backoff), two at Terminate (2s backoff), then Kill;
    // the whole session takes strictly between 2 and 7 seconds
    let handle = duct::cmd("sh", ["-c", "trap '' INT TERM; sleep 30"]).start().unwrap();
    let pid = handle.pids()[0] as i32;
    let mut resource = Resource::new(pid, Aggression::Interrupt, ResourceOptions::RunTime, 1, -1);

    let before = std::time::Instant::now();
    monitor(&mut resource, 0, ResourceOptions::RunTime, 1, -1).unwrap();
    let elapsed = before.elapsed();

    assert!(elapsed > std::time::Duration::from_secs(2));
    assert!(elapsed < std::time::Duration::from_secs(7));
    assert!(!resource.pid_exists());
}
