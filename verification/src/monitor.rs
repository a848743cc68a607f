//! The escalation policy and the monitoring state machine.

use vstd::prelude::*;

use crate::mem::SampleError;
use crate::resource::{level_rank, spec_escalate, Aggression, Resource, ResourceOptions};

verus! {

/// The crossing predicate shared by every metric: with `invert` +1 the
/// threshold is crossed when the value is above it, with -1 when below.
pub open spec fn spec_crossed(invert: int, value: int, threshold: int) -> bool {
    invert * (value - threshold) > 0
}

/// Evaluates the threshold condition. A single shared function, so that every
/// metric gets identical crossing semantics.
pub fn crossed(invert: i32, value: i32, threshold: i32) -> (r: bool)
    ensures
        r == spec_crossed(invert as int, value as int, threshold as int),
{
    proof {
        let i = invert as int;
        let d = value as int - threshold as int;
        assert(i > 0 ==> (i * d > 0 <==> d > 0)) by (nonlinear_arith);
        assert(i < 0 ==> (i * d > 0 <==> d < 0)) by (nonlinear_arith);
        assert(i == 0 ==> i * d == 0) by (nonlinear_arith);
    }
    if invert > 0 {
        value > threshold
    } else if invert < 0 {
        value < threshold
    } else {
        false
    }
}

/// The crossing predicate is a pure function of its three inputs: any two
/// results obtained for the same inputs are the same boolean.
pub proof fn lemma_crossed_deterministic(
    invert: int,
    value: int,
    threshold: int,
    r1: bool,
    r2: bool,
)
    requires
        r1 == spec_crossed(invert, value, threshold),
        r2 == spec_crossed(invert, value, threshold),
    ensures
        r1 == r2,
{
}

/// Ghost model of the mutable monitor state: the current signal level, the
/// number of escalation decisions taken, and the backoff between cycles.
pub struct PolicyState {
    pub level: Aggression,
    pub attempts: nat,
    pub backoff: nat,
}

/// One escalation decision over the abstract state: the attempt counter
/// advances (saturating at the machine limit); on every even attempt count
/// the level escalates and the backoff doubles. The doubling freezes once
/// the backoff passes an eighth of the u64 range, so it stays below a
/// quarter of it — a bound under which sleeping the backoff can never
/// overflow the OS clock.
pub open spec fn spec_decision(s: PolicyState) -> PolicyState {
    let n = if s.attempts < u64::MAX { (s.attempts + 1) as nat } else { s.attempts };
    if n % 2 == 0 {
        PolicyState {
            level: spec_escalate(s.level),
            attempts: n,
            backoff: if s.backoff <= u64::MAX / 8 { (s.backoff * 2) as nat } else { s.backoff },
        }
    } else {
        PolicyState { level: s.level, attempts: n, backoff: s.backoff }
    }
}

/// The abstract state after a sequence of `n` escalation decisions.
pub open spec fn decisions(s: PolicyState, n: nat) -> PolicyState
    decreases n,
{
    if n == 0 {
        s
    } else {
        spec_decision(decisions(s, (n - 1) as nat))
    }
}

/// Powers of two, for the backoff doubling schedule.
pub open spec fn pow2(n: nat) -> nat
    decreases n,
{
    if n == 0 {
        1nat
    } else {
        2 * pow2((n - 1) as nat)
    }
}

/// A single escalation decision never lowers the level, and never shrinks
/// the backoff or the attempt count.
pub proof fn lemma_decision_monotonic(s: PolicyState)
    ensures
        level_rank(spec_decision(s).level) >= level_rank(s.level),
        spec_decision(s).backoff >= s.backoff,
        spec_decision(s).attempts >= s.attempts,
        s.level == Aggression::Kill ==> spec_decision(s).level == Aggression::Kill,
{
}

/// Over every sequence of escalation decisions the level is non-decreasing.
pub proof fn lemma_level_nondecreasing(s: PolicyState, m: nat, n: nat)
    requires
        m <= n,
    ensures
        level_rank(decisions(s, m).level) <= level_rank(decisions(s, n).level),
    decreases n,
{
    if m < n {
        lemma_level_nondecreasing(s, m, (n - 1) as nat);
        lemma_decision_monotonic(decisions(s, (n - 1) as nat));
    }
}

/// The level saturates: once it is Kill, every later state is still Kill.
pub proof fn lemma_level_saturates(s: PolicyState, n: nat)
    requires
        s.level == Aggression::Kill,
    ensures
        decisions(s, n).level == Aggression::Kill,
    decreases n,
{
    if n > 0 {
        lemma_level_saturates(s, (n - 1) as nat);
        lemma_decision_monotonic(decisions(s, (n - 1) as nat));
    }
}

/// One decision changes the backoff exactly when the attempt count it
/// produces is even: it then doubles, and is otherwise left alone.
pub proof fn lemma_backoff_changes_on_even(s: PolicyState)
    requires
        s.attempts + 1 <= u64::MAX,
        s.backoff * 2 <= u64::MAX / 4,
    ensures
        (s.attempts + 1) % 2 == 0 ==> spec_decision(s).backoff == s.backoff * 2,
        (s.attempts + 1) % 2 != 0 ==> spec_decision(s).backoff == s.backoff,
{
    assert(s.backoff <= u64::MAX / 8) by (nonlinear_arith)
        requires s.backoff * 2 <= u64::MAX / 4,
    ;
}

/// From a fresh state the backoff after `n` escalation decisions is the
/// initial backoff doubled once for every second decision, and the attempt
/// counter counts the decisions; the doubling happens only on decisions
/// 2, 4, 6, and so on. Stated away from the machine limits.
pub proof fn lemma_backoff_schedule(s: PolicyState, n: nat)
    requires
        s.attempts == 0,
        n <= u64::MAX,
        s.backoff * pow2((n / 2) as nat) <= u64::MAX / 4,
    ensures
        decisions(s, n).attempts == n,
        decisions(s, n).backoff == s.backoff * pow2((n / 2) as nat),
    decreases n,
{
    if n > 0 {
        let m = (n - 1) as nat;
        let p = decisions(s, m);
        assert(decisions(s, n) == spec_decision(p));
        assert(pow2((m / 2) as nat) <= pow2((n / 2) as nat)) by {
            lemma_pow2_nondecreasing((m / 2) as nat, (n / 2) as nat);
        }
        assert(s.backoff * pow2((m / 2) as nat) <= s.backoff * pow2((n / 2) as nat))
            by (nonlinear_arith)
            requires pow2((m / 2) as nat) <= pow2((n / 2) as nat),
        ;
        lemma_backoff_schedule(s, m);
        assert(p.attempts == m);
        assert(p.backoff == s.backoff * pow2((m / 2) as nat));
        if n % 2 == 0 {
            assert(n / 2 >= 1);
            assert(pow2((n / 2) as nat) == 2 * pow2((n / 2 - 1) as nat));
            assert((n / 2 - 1) as nat == (m / 2) as nat);
            assert(p.backoff * 2 == s.backoff * pow2((n / 2) as nat)) by (nonlinear_arith)
                requires
                    p.backoff == s.backoff * pow2((m / 2) as nat),
                    pow2((n / 2) as nat) == 2 * pow2((m / 2) as nat),
            ;
            assert(p.backoff <= u64::MAX / 8) by (nonlinear_arith)
                requires p.backoff * 2 <= u64::MAX / 4,
            ;
            assert(spec_decision(p).backoff == p.backoff * 2);
        } else {
            assert(n / 2 == m / 2);
            assert(spec_decision(p).backoff == p.backoff);
        }
        assert(decisions(s, n).backoff == s.backoff * pow2((n / 2) as nat));
    } else {
        assert(decisions(s, n) == s);
        assert(n / 2 == 0);
        assert(pow2(0nat) == 1);
        assert(s.backoff * 1 == s.backoff) by (nonlinear_arith);
    }
}

/// Powers of two are non-decreasing.
pub proof fn lemma_pow2_nondecreasing(m: nat, n: nat)
    requires
        m <= n,
    ensures
        pow2(m) <= pow2(n),
    decreases n,
{
    if m < n {
        lemma_pow2_nondecreasing(m, (n - 1) as nat);
        assert(pow2(n) == 2 * pow2((n - 1) as nat));
        lemma_pow2_positive((n - 1) as nat);
    }
}

/// Powers of two are positive.
pub proof fn lemma_pow2_positive(n: nat)
    ensures
        pow2(n) >= 1,
    decreases n,
{
    if n > 0 {
        lemma_pow2_positive((n - 1) as nat);
    }
}

/// The mutable state a monitoring session owns: created at monitor start,
/// discarded when the session ends.
#[derive(Clone, Copy, Debug, PartialEq, Eq, Structural)]
pub struct MonitorState {
    /// The aggression tier the next signal will be sent at.
    pub current_level: Aggression,
    /// Escalation decisions taken so far.
    pub attempts: u64,
    /// Seconds slept between cycles.
    pub backoff_seconds: u64,
    /// Whether a Kill signal was delivered (and the process reaped) this
    /// session.
    pub kill_delivered: bool,
}

impl View for MonitorState {
    type V = PolicyState;

    open spec fn view(&self) -> PolicyState {
        PolicyState {
            level: self.current_level,
            attempts: self.attempts as nat,
            backoff: self.backoff_seconds as nat,
        }
    }
}

impl MonitorState {
    /// The state invariant: the backoff between cycles is at least one
    /// second, and small enough that sleeping it cannot overflow the OS
    /// clock. Established at session start and kept by every decision.
    pub open spec fn wf(&self) -> bool {
        1 <= self.backoff_seconds <= u64::MAX / 4
    }

    /// The state a session starts from: no attempts, one second of backoff.
    pub fn start(initial: Aggression) -> (r: MonitorState)
        ensures
            r.current_level == initial,
            r.attempts == 0,
            r.backoff_seconds == 1,
            !r.kill_delivered,
            r.wf(),
    {
        MonitorState { current_level: initial, attempts: 0, backoff_seconds: 1, kill_delivered: false }
    }

    /// Applies one escalation decision, exactly as `spec_decision` says.
    pub fn escalation_decision(&mut self)
        ensures
            final(self)@ == spec_decision(old(self)@),
            final(self).kill_delivered == old(self).kill_delivered,
            old(self).wf() ==> final(self).wf(),
    {
        if self.attempts < u64::MAX {
            self.attempts = self.attempts + 1;
        }
        if self.attempts % 2 == 0 {
            self.current_level = self.current_level.escalate();
            if self.backoff_seconds <= u64::MAX / 8 {
                self.backoff_seconds = self.backoff_seconds * 2;
            }
        }
    }
}

/// Relies on spin_sleep::sleep: blocks the calling thread for the duration.
/// The bound keeps the sleep deadline, now plus `secs`, well inside the OS
/// clock's range, where computing it cannot panic.
#[verifier::external_body]
fn sleep_secs(secs: u64)
    requires
        secs <= u64::MAX / 4,
{
    spin_sleep::sleep(std::time::Duration::from_secs(secs));
}

/// Samples the configured metric: a pure query against the OS, never a
/// mutation of monitor state. Only the private-memory metric can fail
/// (its accounting source may be unreadable); every other metric succeeds.
fn sample(res_option: &ResourceOptions, resource: &mut Resource) -> (r: Result<i32, SampleError>)
    ensures
        final(resource).config() == old(resource).config(),
        final(resource).spec_aggression() == old(resource).spec_aggression(),
        *res_option != ResourceOptions::ProcMem ==> r matches Ok(_),
        *res_option == ResourceOptions::SysMem ==> (r matches Ok(v) ==> 0 <= v <= 100),
{
    match res_option {
        ResourceOptions::ProcMem => resource.proc_memory(),
        ResourceOptions::SysMem => Ok(resource.sys_mem_percentage()),
        ResourceOptions::CpuUtil => Ok(resource.cpu_util()),
        ResourceOptions::CpuTemp => Ok(resource.cpu_temp()),
        ResourceOptions::RunTime => Ok(resource.run_time()),
    }
}

/// Whether the configured threshold is crossed right now: samples the
/// metric and evaluates the shared crossing predicate on the sampled
/// value. Fails exactly when the sample itself fails, which only the
/// private-memory metric can; a crossing is only ever reported when some
/// representable sample crosses, a percentage metric's within 0..=100.
pub fn should_kill(
    res_option: &ResourceOptions,
    invert: i32,
    threshold: i32,
    resource: &mut Resource,
) -> (r: Result<bool, SampleError>)
    ensures
        final(resource).config() == old(resource).config(),
        final(resource).spec_aggression() == old(resource).spec_aggression(),
        *res_option != ResourceOptions::ProcMem ==> r matches Ok(_),
        (r matches Ok(b) && b) ==> exists|v: int|
            i32::MIN <= v <= i32::MAX && spec_crossed(invert as int, v, threshold as int),
        (r matches Ok(b) && !b) ==> exists|v: int|
            i32::MIN <= v <= i32::MAX && !spec_crossed(invert as int, v, threshold as int),
        (r matches Ok(b) && b && *res_option == ResourceOptions::SysMem) ==> exists|v: int|
            0 <= v <= 100 && spec_crossed(invert as int, v, threshold as int),
{
    match sample(res_option, resource) {
        Err(e) => Err(e),
        Ok(v) => {
            let b = crossed(invert, v, threshold);
            proof {
                if b {
                    assert(spec_crossed(invert as int, v as int, threshold as int));
                } else {
                    assert(!spec_crossed(invert as int, v as int, threshold as int));
                }
            }
            Ok(b)
        },
    }
}

/// What a monitoring cycle asks its driver to do next.
#[derive(Clone, Copy, Debug, PartialEq, Eq, Structural)]
pub enum CycleAction {
    /// The session is over: the process is gone, or a Kill was already
    /// delivered and the process reaped.
    Terminal,
    /// Go straight to the next cycle: the signal just sent was a Kill and
    /// the process is already gone.
    Continue,
    /// Sleep this many seconds, then run the next cycle.
    Sleep(u64),
}

/// The crossed branch of a cycle applied one escalation decision, and may
/// have recorded a delivered Kill beforehand.
pub open spec fn cycle_decision(o: MonitorState, f: MonitorState) -> bool {
    &&& f@ == spec_decision(o@)
    &&& (f.kill_delivered == o.kill_delivered || (o.current_level == Aggression::Kill
        && f.kill_delivered))
}

/// One monitoring cycle. Checks liveness first: when the process is gone,
/// or a Kill was already delivered this session, the session is over and
/// the state is untouched. Otherwise it samples; below the threshold the
/// state is untouched and the driver sleeps the current backoff. Crossed,
/// it delivers the signal for the current level and — delivered or not —
/// applies one escalation decision; the driver then sleeps the backoff the
/// cycle started with, except that after a delivered Kill (the process is
/// certainly gone and reaped) it goes straight on. A sampling failure
/// leaves the state untouched and surfaces.
pub fn monitor_cycle(
    resource: &mut Resource,
    res_option: &ResourceOptions,
    invert: i32,
    threshold: i32,
    state: &mut MonitorState,
) -> (r: Result<CycleAction, SampleError>)
    ensures
        final(resource).config() == old(resource).config(),
        final(resource).spec_aggression() == old(resource).spec_aggression(),
        old(state).kill_delivered ==> r == Ok::<CycleAction, SampleError>(CycleAction::Terminal),
        *res_option != ResourceOptions::ProcMem ==> !(r matches Err(_)),
        r == Ok::<CycleAction, SampleError>(CycleAction::Terminal) ==> *final(state) == *old(
            state,
        ),
        r matches Err(_) ==> *final(state) == *old(state),
        r matches Ok(CycleAction::Sleep(s)) ==> s == old(state).backoff_seconds && (*final(state)
            == *old(state) || cycle_decision(*old(state), *final(state))),
        r == Ok::<CycleAction, SampleError>(CycleAction::Continue) ==> cycle_decision(
            *old(state),
            *final(state),
        ) && old(state).current_level == Aggression::Kill && final(state).kill_delivered,
        level_rank(final(state).current_level) >= level_rank(old(state).current_level),
        final(state).backoff_seconds >= old(state).backoff_seconds,
        final(state).attempts >= old(state).attempts,
        old(state).kill_delivered ==> final(state).kill_delivered,
        old(state).wf() ==> final(state).wf(),
        (forall|v: int|
            i32::MIN <= v <= i32::MAX ==> !spec_crossed(invert as int, v, threshold as int))
            ==> *final(state) == *old(state),
{
    if state.kill_delivered {
        return Ok(CycleAction::Terminal);
    }
    if !resource.pid_exists() {
        return Ok(CycleAction::Terminal);
    }
    match should_kill(res_option, invert, threshold, resource) {
        Err(e) => Err(e),
        Ok(false) => Ok(CycleAction::Sleep(state.backoff_seconds)),
        Ok(true) => {
            let ghost pre = *state;
            let level = state.current_level;
            let delivered = resource.deliver_signal(&level);
            let was_kill = level == Aggression::Kill;
            if was_kill && delivered {
                state.kill_delivered = true;
            }
            let pause = state.backoff_seconds;
            state.escalation_decision();
            proof {
                lemma_decision_monotonic(pre@);
            }
            if was_kill && delivered {
                Ok(CycleAction::Continue)
            } else {
                Ok(CycleAction::Sleep(pause))
            }
        },
    }
}

/// Drives monitoring cycles until the session ends, sleeping the backoff
/// the cycle asks for in between. The resource's configuration, and its
/// own aggression field, are left as they were. Only a session on the
/// private-memory metric can fail.
pub fn run_session(
    resource: &mut Resource,
    initial: Aggression,
    res_option: &ResourceOptions,
    invert: i32,
    threshold: i32,
) -> (r: Result<(), SampleError>)
    ensures
        final(resource).config() == old(resource).config(),
        final(resource).spec_aggression() == old(resource).spec_aggression(),
        *res_option != ResourceOptions::ProcMem ==> r matches Ok(_),
{
    let mut state = MonitorState::start(initial);
    // a cycle budget no real session can exhaust: each cycle takes at least
    // a process-table refresh, so the budget only bounds the loop formally
    let mut budget: u64 = u64::MAX;
    while budget > 0
        invariant
            resource.config() == old(resource).config(),
            resource.spec_aggression() == old(resource).spec_aggression(),
            level_rank(state.current_level) >= level_rank(initial),
            state.wf(),
        decreases budget,
    {
        budget -= 1;
        match monitor_cycle(resource, res_option, invert, threshold, &mut state) {
            Err(e) => {
                return Err(e);
            },
            Ok(CycleAction::Terminal) => {
                return Ok(());
            },
            Ok(CycleAction::Continue) => {},
            Ok(CycleAction::Sleep(s)) => {
                sleep_secs(s);
            },
        }
    }
    // reached only when the budget ran out, which no real session can do
    Ok(())
}

/// Monitors the process with an explicit starting level — at or below 0
/// interrupt, 1 terminate, 2 or above kill — and the given condition,
/// returning once the process is no longer alive, or with the sampling
/// failure that stopped the session (possible only on the private-memory
/// metric).
pub fn monitor(
    resource: &mut Resource,
    level: i32,
    res_option: ResourceOptions,
    invert: i32,
    threshold: i32,
) -> (r: Result<(), SampleError>)
    ensures
        final(resource).config() == old(resource).config(),
        final(resource).spec_aggression() == old(resource).spec_aggression(),
        res_option != ResourceOptions::ProcMem ==> r matches Ok(_),
{
    let initial = if level <= 0 {
        Aggression::Interrupt
    } else if level == 1 {
        Aggression::Terminate
    } else {
        Aggression::Kill
    };
    run_session(resource, initial, &res_option, invert, threshold)
}

/// One escalation decision over the raw numeric state: the attempt counter
/// always advances; on every second attempt the level steps up and the
/// timeout doubles.
pub fn escalate_level(level: &mut i32, tries: &mut i32, timeout: &mut u64)
    requires
        0 <= *old(tries) < i32::MAX,
        (*old(tries) + 1) % 2 == 0 ==> *old(level) < i32::MAX && *old(timeout) <= u64::MAX / 2,
    ensures
        *final(tries) == *old(tries) + 1,
        (*old(tries) + 1) % 2 == 0 ==> *final(level) == *old(level) + 1 && *final(timeout)
            == *old(timeout) * 2,
        (*old(tries) + 1) % 2 != 0 ==> *final(level) == *old(level) && *final(timeout) == *old(
            timeout,
        ),
{
    *tries += 1;
    if *tries % 2 == 0 {
        *level += 1;
        *timeout *= 2;
    }
}

/// One escalation decision over the unbounded numeric state
/// `(level, tries, timeout)`: exactly what `escalate_level` does, free of
/// machine limits.
pub open spec fn raw_decision(level: int, tries: int, timeout: nat) -> (int, int, nat) {
    let n = tries + 1;
    if n % 2 == 0 {
        (level + 1, n, timeout * 2)
    } else {
        (level, n, timeout)
    }
}

/// The numeric state after a sequence of `n` escalation decisions.
pub open spec fn raw_decisions(level: int, tries: int, timeout: nat, n: nat) -> (int, int, nat)
    decreases n,
{
    if n == 0 {
        (level, tries, timeout)
    } else {
        let (l, t, w) = raw_decisions(level, tries, timeout, (n - 1) as nat);
        raw_decision(l, t, w)
    }
}

/// The schedule of the raw numeric policy, in closed form: starting from a
/// fresh counter, `n` escalation decisions count up to `n`, step the level
/// up once per pair of decisions, and double the timeout as often — that
/// is, the timeout changes exactly on decisions 2, 4, 6, and so on.
pub proof fn lemma_raw_schedule(level: int, timeout: nat, n: nat)
    ensures
        raw_decisions(level, 0, timeout, n) == (level + n / 2, n as int, timeout * pow2(n / 2)),
    decreases n,
{
    if n == 0 {
        assert(timeout * pow2(0nat) == timeout) by (nonlinear_arith)
            requires pow2(0nat) == 1,
        ;
    } else {
        let m = (n - 1) as nat;
        lemma_raw_schedule(level, timeout, m);
        let (l, t, w) = raw_decisions(level, 0, timeout, m);
        if n % 2 == 0 {
            assert(n / 2 == m / 2 + 1);
            assert(pow2((n / 2) as nat) == 2 * pow2((m / 2) as nat));
            assert(w * 2 == timeout * pow2((n / 2) as nat)) by (nonlinear_arith)
                requires
                    w == timeout * pow2((m / 2) as nat),
                    pow2((n / 2) as nat) == 2 * pow2((m / 2) as nat),
            ;
        } else {
            assert(n / 2 == m / 2);
        }
    }
}

} // verus!
