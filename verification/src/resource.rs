//! The monitored resource: the target process, the sampling handle, and the
//! configured threshold condition, together with signal delivery.

use vstd::prelude::*;

use sysinfo::{ComponentExt, CpuExt, PidExt, ProcessExt, SystemExt};

use crate::mem::{private_memory_result, read_private_memory, SampleError};

verus! {

/// Severity tier of the termination signal the monitor is willing to send.
/// The tiers are totally ordered: interrupt < terminate < kill.
#[derive(Clone, Copy, Debug, PartialEq, Eq, Structural)]
pub enum Aggression {
    /// SIGINT
    Interrupt,
    /// SIGTERM
    Terminate,
    /// SIGKILL
    Kill,
}

/// Numeric rank of an aggression level: Interrupt 0, Terminate 1, Kill 2.
pub open spec fn level_rank(a: Aggression) -> int {
    match a {
        Aggression::Interrupt => 0,
        Aggression::Terminate => 1,
        Aggression::Kill => 2,
    }
}

/// The single escalation transition: one step up, saturating at Kill.
pub open spec fn spec_escalate(a: Aggression) -> Aggression {
    match a {
        Aggression::Interrupt => Aggression::Terminate,
        Aggression::Terminate => Aggression::Kill,
        Aggression::Kill => Aggression::Kill,
    }
}

impl Aggression {
    /// Escalate the signal from the leaner to the more aggressive value.
    /// The level never goes down, and Kill is a ceiling.
    pub fn escalate(&self) -> (r: Self)
        ensures
            r == spec_escalate(*self),
            level_rank(r) >= level_rank(*self),
            *self == Aggression::Kill ==> r == Aggression::Kill,
    {
        match *self {
            Aggression::Interrupt => Aggression::Terminate,
            Aggression::Terminate => Aggression::Kill,
            Aggression::Kill => Aggression::Kill,
        }
    }
}

/// The resource metrics that can be monitored.
#[derive(Clone, Copy, Debug, PartialEq, Eq, Structural)]
pub enum ResourceOptions {
    /// Private resident memory of the process, in kilobytes.
    ProcMem,
    /// Whole-system used memory, as an integer percentage.
    SysMem,
    /// Aggregate CPU utilisation percentage.
    CpuUtil,
    /// Maximum CPU core temperature, in whole degrees.
    CpuTemp,
    /// Seconds since the process started.
    RunTime,
}

#[verifier::external_type_specification]
#[verifier::external_body]
pub struct ExSystem(sysinfo::System);

/// Relies on sysinfo's System::new: a fresh handle with nothing refreshed.
#[verifier::external_body]
fn sys_new() -> sysinfo::System {
    sysinfo::System::new()
}

/// Relies on sysinfo's SystemExt::refresh_all: refreshes every cached datum.
#[verifier::external_body]
fn sys_refresh_all(sys: &mut sysinfo::System) {
    sys.refresh_all();
}

/// Relies on sysinfo's SystemExt::refresh_memory.
#[verifier::external_body]
fn sys_refresh_memory(sys: &mut sysinfo::System) {
    sys.refresh_memory();
}

/// Relies on sysinfo's SystemExt::refresh_cpu.
#[verifier::external_body]
fn sys_refresh_cpu(sys: &mut sysinfo::System) {
    sys.refresh_cpu();
}

/// Relies on sysinfo's SystemExt::refresh_components_list.
#[verifier::external_body]
fn sys_refresh_components_list(sys: &mut sysinfo::System) {
    sys.refresh_components_list();
}

/// Relies on sysinfo's SystemExt::refresh_components.
#[verifier::external_body]
fn sys_refresh_components(sys: &mut sysinfo::System) {
    sys.refresh_components();
}

/// Relies on sysinfo's SystemExt::refresh_process: refreshes the one
/// process, returning whether it exists.
#[verifier::external_body]
fn sys_refresh_process(sys: &mut sysinfo::System, pid: i32) -> bool {
    sys.refresh_process(sysinfo::Pid::from_u32(pid as u32))
}

/// Relies on sysinfo's SystemExt::used_memory: used memory in bytes, from
/// the last memory refresh.
#[verifier::external_body]
fn sys_used_memory(sys: &sysinfo::System) -> u64 {
    sys.used_memory()
}

/// Relies on sysinfo's SystemExt::total_memory: total memory in bytes, from
/// the last memory refresh.
#[verifier::external_body]
fn sys_total_memory(sys: &sysinfo::System) -> u64 {
    sys.total_memory()
}

/// Relies on sysinfo's SystemExt::global_cpu_info and CpuExt::cpu_usage:
/// the aggregate CPU usage percentage since the previous refresh, in whole
/// percent. The first read after a fresh handle may be 0.
#[verifier::external_body]
fn sys_cpu_usage(sys: &sysinfo::System) -> i32 {
    sys.global_cpu_info().cpu_usage() as i32
}

/// Relies on sysinfo's SystemExt::components, ComponentExt::label and
/// ComponentExt::temperature: each sensor's label and its temperature in
/// whole degrees.
#[verifier::external_body]
fn sys_component_temps(sys: &sysinfo::System) -> Vec<(String, i32)> {
    sys.components().iter().map(|c| (c.label().to_string(), c.temperature() as i32)).collect()
}

/// Relies on sysinfo's SystemExt::process: whether the process table holds
/// the PID, as of the last refresh.
#[verifier::external_body]
fn sys_process_exists(sys: &sysinfo::System, pid: i32) -> bool {
    sys.process(sysinfo::Pid::from_u32(pid as u32)).is_some()
}

/// Relies on sysinfo's SystemExt::process and ProcessExt::run_time: seconds
/// since the process started, or None when the PID is not in the table.
#[verifier::external_body]
fn sys_process_run_time(sys: &sysinfo::System, pid: i32) -> Option<u64> {
    sys.process(sysinfo::Pid::from_u32(pid as u32)).map(|p| p.run_time())
}

/// Relies on sysinfo's SystemExt::process and ProcessExt::kill_with: sends
/// the signal for the level. None when the PID is not in the table (nothing
/// is sent) or the platform lacks the signal; otherwise whether the OS
/// accepted the signal call.
#[verifier::external_body]
fn sys_kill_with(sys: &sysinfo::System, pid: i32, level: &Aggression) -> Option<bool> {
    let signal = match level {
        Aggression::Interrupt => sysinfo::Signal::Interrupt,
        Aggression::Terminate => sysinfo::Signal::Term,
        Aggression::Kill => sysinfo::Signal::Kill,
    };
    match sys.process(sysinfo::Pid::from_u32(pid as u32)) {
        Some(p) => p.kill_with(signal),
        None => None,
    }
}

/// Relies on sysinfo's SystemExt::process and ProcessExt::wait: blocks
/// until the process is gone — reaping it (consuming its exit status, so no
/// zombie entry remains) when it is a child of this process, and polling
/// until it disappears otherwise. A no-op when the PID is no longer in the
/// table.
#[verifier::external_body]
fn sys_wait(sys: &sysinfo::System, pid: i32) {
    if let Some(p) = sys.process(sysinfo::Pid::from_u32(pid as u32)) {
        p.wait();
    }
}

/// Computes the whole-system used-memory percentage, rounded down and
/// clamped to 0..=100. A total of 0 (nothing refreshed yet) reads as 0.
pub open spec fn spec_memory_percentage(used: int, total: int) -> int {
    if total == 0 {
        0
    } else if 100 * used / total > 100 {
        100
    } else {
        100 * used / total
    }
}

/// The used/total memory percentage, rounded down to an integer in 0..=100.
pub fn memory_percentage(used: u64, total: u64) -> (r: i32)
    ensures
        r as int == spec_memory_percentage(used as int, total as int),
        0 <= r <= 100,
{
    if total == 0 {
        0
    } else {
        let p = (100u128 * (used as u128)) / (total as u128);
        if p > 100 {
            100
        } else {
            p as i32
        }
    }
}

/// One monitored process with its sampling handle and threshold condition.
pub struct Resource {
    pid: i32,
    system: sysinfo::System,
    aggression: Aggression,
    res_option: ResourceOptions,
    invert: i32,
    threshold: i32,
}

impl Resource {
    /// The configured process identifier.
    pub closed spec fn spec_pid(&self) -> int {
        self.pid as int
    }

    /// The current aggression level of this resource.
    pub closed spec fn spec_aggression(&self) -> Aggression {
        self.aggression
    }

    /// The configured metric.
    pub closed spec fn spec_option(&self) -> ResourceOptions {
        self.res_option
    }

    /// The configured direction multiplier: +1 above, -1 below.
    pub closed spec fn spec_invert(&self) -> int {
        self.invert as int
    }

    /// The configured threshold.
    pub closed spec fn spec_threshold(&self) -> int {
        self.threshold as int
    }

    /// Everything the caller configured except the aggression level, for
    /// frame conditions.
    pub open spec fn config(&self) -> (int, ResourceOptions, int, int) {
        (self.spec_pid(), self.spec_option(), self.spec_invert(), self.spec_threshold())
    }

    pub fn new(
        pid: i32,
        aggression: Aggression,
        res_option: ResourceOptions,
        invert: i32,
        threshold: i32,
    ) -> (r: Resource)
        ensures
            r.spec_pid() == pid,
            r.spec_aggression() == aggression,
            r.spec_option() == res_option,
            r.spec_invert() == invert,
            r.spec_threshold() == threshold,
    {
        Resource { pid, system: sys_new(), aggression, res_option, invert, threshold }
    }

    /// The monitored PID.
    pub fn pid(&self) -> (r: u32)
        ensures
            self.spec_pid() >= 0 ==> r == self.spec_pid(),
    {
        #[verifier::truncate] (self.pid as u32)
    }

    /// Whether the process is currently in the OS process table.
    pub fn pid_exists(&mut self) -> (r: bool)
        ensures
            final(self).config() == old(self).config(),
            final(self).spec_aggression() == old(self).spec_aggression(),
    {
        sys_refresh_all(&mut self.system);
        sys_process_exists(&self.system, self.pid)
    }

    /// Seconds since the process started; 0 when the process is not found,
    /// a recoverable miss. The result is `run_time_from_sample` of the
    /// table lookup.
    pub fn run_time(&mut self) -> (r: i32)
        ensures
            final(self).config() == old(self).config(),
            final(self).spec_aggression() == old(self).spec_aggression(),
    {
        sys_refresh_process(&mut self.system, self.pid);
        let sample = sys_process_run_time(&self.system, self.pid);
        run_time_from_sample(sample)
    }

    /// The private resident memory of the process, in kilobytes. Fails with
    /// Unreadable when the accounting source cannot be opened: a deliberate
    /// fail-fast, distinct from the liveness check.
    pub fn proc_memory(&mut self) -> (r: Result<i32, SampleError>)
        ensures
            final(self).config() == old(self).config(),
            final(self).spec_aggression() == old(self).spec_aggression(),
            match r {
                Ok(v) => exists|t: Seq<char>| private_memory_result(t) == Ok::<int, SampleError>(
                    v as int,
                ),
                Err(err) => err == SampleError::Unreadable || exists|t: Seq<char>|
                    private_memory_result(t) == Err::<int, SampleError>(err),
            },
    {
        read_private_memory(self.pid)
    }

    /// The whole-system used-memory percentage, 0..=100.
    pub fn sys_mem_percentage(&mut self) -> (r: i32)
        ensures
            final(self).config() == old(self).config(),
            final(self).spec_aggression() == old(self).spec_aggression(),
            0 <= r <= 100,
    {
        sys_refresh_memory(&mut self.system);
        let used = sys_used_memory(&self.system);
        let total = sys_total_memory(&self.system);
        memory_percentage(used, total)
    }

    /// Aggregate CPU utilisation percentage since the previous refresh; the
    /// first call on a fresh sampler may read 0.
    pub fn cpu_util(&mut self) -> (r: i32)
        ensures
            final(self).config() == old(self).config(),
            final(self).spec_aggression() == old(self).spec_aggression(),
    {
        sys_refresh_cpu(&mut self.system);
        sys_cpu_usage(&self.system)
    }

    /// Maximum temperature over the sensors whose label names a CPU core;
    /// the minimum representable value when no such sensor exists.
    pub fn cpu_temp(&mut self) -> (r: i32)
        ensures
            final(self).config() == old(self).config(),
            final(self).spec_aggression() == old(self).spec_aggression(),
    {
        sys_refresh_components_list(&mut self.system);
        sys_refresh_components(&mut self.system);
        let comps = sys_component_temps(&self.system);
        max_core_temp(&comps)
    }
}

/// The runtime a process-table lookup denotes: 0 when the process was not
/// found — a recoverable miss, not an error — else the seconds since the
/// process started, truncated into an i32.
pub open spec fn spec_run_time_sample(o: Option<u64>) -> int {
    match o {
        None => 0,
        Some(t) => t as i32 as int,
    }
}

/// Maps a process-table lookup to the sampled runtime.
pub fn run_time_from_sample(o: Option<u64>) -> (r: i32)
    ensures
        r as int == spec_run_time_sample(o),
        o is None ==> r == 0,
{
    match o {
        Some(t) => #[verifier::truncate] (t as i32),
        None => 0,
    }
}

/// `core` occurs in the label at position `i`.
pub open spec fn core_at(lbl: Seq<char>, i: int) -> bool {
    0 <= i && i + 4 <= lbl.len() && lbl[i] == 'c' && lbl[i + 1] == 'o' && lbl[i + 2] == 'r'
        && lbl[i + 3] == 'e'
}

/// The sensor label identifies a CPU core.
pub open spec fn label_has_core(lbl: Seq<char>) -> bool {
    exists|i: int| core_at(lbl, i)
}

/// Whether the label holds `core`.
fn contains_core(lbl: &String) -> (b: bool)
    ensures
        b == label_has_core(lbl@),
{
    let s = lbl.as_str();
    let n = s.unicode_len();
    if n < 4 {
        proof {
            assert forall|i: int| !core_at(lbl@, i) by {}
        }
        return false;
    }
    let mut i: usize = 0;
    while i <= n - 4
        invariant
            4 <= n == lbl@.len(),
            s@ == lbl@,
            0 <= i <= n - 4 + 1,
            forall|j: int| 0 <= j < i ==> !core_at(lbl@, j),
        decreases n - i,
    {
        if s.get_char(i) == 'c' && s.get_char(i + 1) == 'o' && s.get_char(i + 2) == 'r'
            && s.get_char(i + 3) == 'e' {
            proof {
                assert(core_at(lbl@, i as int));
            }
            return true;
        }
        i += 1;
    }
    proof {
        assert forall|j: int| !core_at(lbl@, j) by {
            if core_at(lbl@, j) {
                assert(0 <= j < i);
            }
        }
    }
    false
}

/// The maximum temperature over the core-labelled sensors in the list; the
/// minimum representable value when there is none.
pub open spec fn spec_max_core_temp(list: Seq<(String, i32)>) -> int
    decreases list.len(),
{
    if list.len() == 0 {
        i32::MIN as int
    } else {
        let rest = spec_max_core_temp(list.drop_last());
        if label_has_core(list.last().0@) && list.last().1 > rest {
            list.last().1 as int
        } else {
            rest
        }
    }
}

/// Maximum temperature across the sensors whose label holds `core`.
pub fn max_core_temp(list: &Vec<(String, i32)>) -> (r: i32)
    ensures
        r as int == spec_max_core_temp(list@),
{
    let mut m = i32::MIN;
    let mut idx: usize = 0;
    proof {
        assert(list@.subrange(0, 0) =~= Seq::<(String, i32)>::empty());
    }
    while idx < list.len()
        invariant
            0 <= idx <= list@.len(),
            m as int == spec_max_core_temp(list@.subrange(0, idx as int)),
        decreases list@.len() - idx,
    {
        let pair = &list[idx];
        proof {
            let p = list@.subrange(0, idx as int);
            let q = list@.subrange(0, idx as int + 1);
            assert(q.drop_last() =~= p);
            assert(q.last() == list@[idx as int]);
        }
        if contains_core(&pair.0) && pair.1 > m {
            m = pair.1;
        }
        idx += 1;
    }
    proof {
        assert(list@.subrange(0, list@.len() as int) =~= list@);
    }
    m
}

impl Resource {
    /// Delivers the signal for `level` to the process: when the process is
    /// absent nothing is sent and the result is false; otherwise the result
    /// is true exactly when the OS accepted the signal call. After an
    /// accepted Kill this blocks until the process has been reaped, so no
    /// zombie entry remains.
    pub fn deliver_signal(&mut self, level: &Aggression) -> (r: bool)
        ensures
            final(self).config() == old(self).config(),
            final(self).spec_aggression() == old(self).spec_aggression(),
    {
        sys_refresh_all(&mut self.system);
        match sys_kill_with(&self.system, self.pid, level) {
            Some(true) => {
                if *level == Aggression::Kill {
                    sys_wait(&self.system, self.pid);
                }
                true
            },
            _ => false,
        }
    }

    /// Sends the signal for the current aggression level. On acceptance the
    /// level escalates for the next attempt (after waiting for a Kill to be
    /// reaped); on a miss it stays. The level never goes down.
    pub fn maybe_kill(&mut self) -> (r: bool)
        ensures
            final(self).config() == old(self).config(),
            r ==> final(self).spec_aggression() == spec_escalate(old(self).spec_aggression()),
            !r ==> final(self).spec_aggression() == old(self).spec_aggression(),
            level_rank(final(self).spec_aggression()) >= level_rank(old(self).spec_aggression()),
    {
        let level = self.aggression;
        let delivered = self.deliver_signal(&level);
        if delivered {
            self.aggression = self.aggression.escalate();
        }
        delivered
    }

    /// Kills the process once the configured resource crosses its
    /// threshold: runs the monitoring session with this resource's own
    /// configuration, returning when the process is gone (or a Kill was
    /// delivered and the process reaped), or with the sampling failure
    /// that stopped the session — possible only on the private-memory
    /// metric.
    pub fn killrs(&mut self) -> (r: Result<(), SampleError>)
        ensures
            final(self).config() == old(self).config(),
            final(self).spec_aggression() == old(self).spec_aggression(),
            old(self).spec_option() != ResourceOptions::ProcMem ==> r matches Ok(_),
    {
        let initial = self.aggression;
        let res_option = self.res_option;
        let invert = self.invert;
        let threshold = self.threshold;
        crate::monitor::run_session(self, initial, &res_option, invert, threshold)
    }
}

} // verus!
