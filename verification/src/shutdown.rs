//! Shutdown stage deadlines and drain-progress diagnostics.
//!
//! Times are nanoseconds on a monotonic clock and durations are nanoseconds;
//! the caller reads the clock and passes `now`.

use vstd::prelude::*;
use crate::text::{decimal, u64_to_decimal};
use crate::strmap::StringMap;
use crate::live::{joined, texts};

verus! {

/// An error answered to a control request: a machine code and a message.
#[derive(Debug)]
pub struct ControlError {
    pub code: String,
    pub message: String,
}

/// The global shutdown deadline, absent when `started_at + timeout` does not
/// fit the clock.
pub struct ShutdownDeadline {
    pub deadline: Option<u128>,
}

impl ShutdownDeadline {
    pub fn new(started_at: u128, timeout: u128) -> (r: Self)
        ensures
            r.deadline == if started_at + timeout <= u128::MAX { Some((started_at + timeout) as u128) } else { None::<u128> },
    {
        ShutdownDeadline { deadline: started_at.checked_add(timeout) }
    }

    /// Budget left for a stage at `now`: the time to the deadline (none
    /// without a deadline or past it), capped at `stage_limit`.
    pub fn remaining_budget(&self, now: u128, stage_limit: u128) -> (r: u128)
        ensures
            r == min_u128(match self.deadline {
                Some(d) => if d > now { (d - now) as u128 } else { 0 },
                None => 0,
            }, stage_limit),
    {
        let left = match self.deadline {
            Some(d) => if d > now { d - now } else { 0 },
            None => 0,
        };
        if left < stage_limit { left } else { stage_limit }
    }

    /// Whether the deadline has passed at `now` (always, without a deadline).
    pub fn is_expired(&self, now: u128) -> (r: bool)
        ensures
            r == match self.deadline {
                Some(d) => now >= d,
                None => true,
            },
    {
        match self.deadline {
            Some(d) => now >= d,
            None => true,
        }
    }
}

pub open spec fn min_u128(a: u128, b: u128) -> u128 {
    if a < b { a } else { b }
}

/// The stages of the shutdown drain, in order.
#[derive(Clone, Copy, Debug, PartialEq, Eq, Structural)]
pub enum ShutdownDrainStage {
    TerminalFinalization,
    UnsettledSemantics,
    PostTrace,
    Export,
    Alert,
}

/// Number of drain stages.
pub const SHUTDOWN_DRAIN_STAGE_COUNT: u32 = 5;

pub open spec fn stage_name(stage: ShutdownDrainStage) -> Seq<char> {
    match stage {
        ShutdownDrainStage::TerminalFinalization => "terminal_finalization"@,
        ShutdownDrainStage::UnsettledSemantics => "unsettled_semantics"@,
        ShutdownDrainStage::PostTrace => "post_trace"@,
        ShutdownDrainStage::Export => "export"@,
        ShutdownDrainStage::Alert => "alert"@,
    }
}

pub open spec fn stage_unit(stage: ShutdownDrainStage) -> Seq<char> {
    match stage {
        ShutdownDrainStage::TerminalFinalization | ShutdownDrainStage::UnsettledSemantics => "traces"@,
        ShutdownDrainStage::PostTrace => "plugin_instances"@,
        ShutdownDrainStage::Export => "observation_consumers"@,
        ShutdownDrainStage::Alert => "has_outstanding_writes"@,
    }
}

impl ShutdownDrainStage {
    pub fn as_str(self) -> (r: &'static str)
        ensures
            r@ == stage_name(self),
    {
        match self {
            ShutdownDrainStage::TerminalFinalization => "terminal_finalization",
            ShutdownDrainStage::UnsettledSemantics => "unsettled_semantics",
            ShutdownDrainStage::PostTrace => "post_trace",
            ShutdownDrainStage::Export => "export",
            ShutdownDrainStage::Alert => "alert",
        }
    }

    /// What the remaining count of the stage counts.
    pub fn remaining_unit(self) -> (r: &'static str)
        ensures
            r@ == stage_unit(self),
    {
        match self {
            ShutdownDrainStage::TerminalFinalization | ShutdownDrainStage::UnsettledSemantics => "traces",
            ShutdownDrainStage::PostTrace => "plugin_instances",
            ShutdownDrainStage::Export => "observation_consumers",
            ShutdownDrainStage::Alert => "has_outstanding_writes",
        }
    }
}

/// The error of a stage that the global deadline cut off.
pub fn shutdown_deadline_exhausted(stage: ShutdownDrainStage) -> (r: ControlError)
    ensures
        r.code@ == "daemon_shutdown_deadline"@,
        r.message@ == "global shutdown deadline exhausted before "@ + stage_name(stage) + " completed"@,
{
    let mut message = String::from_str("global shutdown deadline exhausted before ");
    message.append(stage.as_str());
    message.append(" completed");
    ControlError { code: String::from_str("daemon_shutdown_deadline"), message }
}

/// Timing of one drain stage.
pub struct ShutdownStageProbe {
    pub stage: ShutdownDrainStage,
    pub budget: u128,
    pub shutdown_started_at: u128,
    pub stage_started_at: u128,
}

/// Time from `start` to `now`, zero when `now` is earlier.
pub open spec fn since(start: u128, now: u128) -> u128 {
    if now > start { (now - start) as u128 } else { 0 }
}

impl ShutdownStageProbe {
    pub fn new(stage: ShutdownDrainStage, budget: u128, shutdown_started_at: u128, now: u128) -> (r: Self)
        ensures
            r == (ShutdownStageProbe { stage, budget, shutdown_started_at, stage_started_at: now }),
    {
        ShutdownStageProbe { stage, budget, shutdown_started_at, stage_started_at: now }
    }

    pub fn stage_elapsed(&self, now: u128) -> (r: u128)
        ensures
            r == since(self.stage_started_at, now),
    {
        if now > self.stage_started_at { now - self.stage_started_at } else { 0 }
    }

    /// Restarts the stage clock at `now`.
    pub fn mark_stage_started(&mut self, now: u128)
        ensures
            *final(self) == (ShutdownStageProbe { stage_started_at: now, ..*old(self) }),
    {
        self.stage_started_at = now;
    }

    pub fn shutdown_elapsed(&self, now: u128) -> (r: u128)
        ensures
            r == since(self.shutdown_started_at, now),
    {
        if now > self.shutdown_started_at { now - self.shutdown_started_at } else { 0 }
    }

    /// A stage is slow once it took a fifth of its budget.
    pub fn slow_threshold(&self) -> (r: u128)
        ensures
            r == self.budget / SHUTDOWN_DRAIN_STAGE_COUNT as u128,
    {
        self.budget / (SHUTDOWN_DRAIN_STAGE_COUNT as u128)
    }

    /// Whole milliseconds of a duration, saturating at `u64::MAX`.
    pub fn duration_millis(duration: u128) -> (r: u64)
        ensures
            r as int == if duration / 1_000_000 > u64::MAX { u64::MAX as int } else { (duration / 1_000_000) as int },
    {
        let ms = duration / 1_000_000;
        if ms > u64::MAX as u128 { u64::MAX } else { ms as u64 }
    }
}

/// How a drain stage stands.
#[derive(Clone, Copy, Debug, PartialEq, Eq, Structural)]
pub enum ShutdownStageStatus {
    Started,
    Completed,
    Failed,
}

#[derive(Clone, Copy, Debug, PartialEq, Eq, Structural)]
pub enum DiagnosticSeverity {
    Info,
    Warning,
    Error,
}

pub open spec fn status_name(s: ShutdownStageStatus) -> Seq<char> {
    match s {
        ShutdownStageStatus::Started => "started"@,
        ShutdownStageStatus::Completed => "completed"@,
        ShutdownStageStatus::Failed => "failed"@,
    }
}

pub open spec fn status_code(s: ShutdownStageStatus) -> Seq<char> {
    match s {
        ShutdownStageStatus::Started => "daemon_shutdown_stage_started"@,
        ShutdownStageStatus::Completed => "daemon_shutdown_stage_completed"@,
        ShutdownStageStatus::Failed => "daemon_shutdown_stage_failed"@,
    }
}

pub open spec fn status_message(s: ShutdownStageStatus) -> Seq<char> {
    match s {
        ShutdownStageStatus::Started => "daemon shutdown drain stage entered"@,
        ShutdownStageStatus::Completed => "daemon shutdown drain stage completed"@,
        ShutdownStageStatus::Failed => "daemon shutdown drain stage failed"@,
    }
}

/// Entering a stage is informational, finishing slowly is a warning,
/// failing is an error.
pub open spec fn status_severity(s: ShutdownStageStatus, slow: bool) -> DiagnosticSeverity {
    match s {
        ShutdownStageStatus::Started => DiagnosticSeverity::Info,
        ShutdownStageStatus::Completed => if slow { DiagnosticSeverity::Warning } else { DiagnosticSeverity::Info },
        ShutdownStageStatus::Failed => DiagnosticSeverity::Error,
    }
}

impl ShutdownStageStatus {
    pub fn as_str(self) -> (r: &'static str)
        ensures
            r@ == status_name(self),
    {
        match self {
            ShutdownStageStatus::Started => "started",
            ShutdownStageStatus::Completed => "completed",
            ShutdownStageStatus::Failed => "failed",
        }
    }

    pub fn code(self) -> (r: &'static str)
        ensures
            r@ == status_code(self),
    {
        match self {
            ShutdownStageStatus::Started => "daemon_shutdown_stage_started",
            ShutdownStageStatus::Completed => "daemon_shutdown_stage_completed",
            ShutdownStageStatus::Failed => "daemon_shutdown_stage_failed",
        }
    }

    pub fn severity(self, slow: bool) -> (r: DiagnosticSeverity)
        ensures
            r == status_severity(self, slow),
    {
        match self {
            ShutdownStageStatus::Started => DiagnosticSeverity::Info,
            ShutdownStageStatus::Completed => if slow { DiagnosticSeverity::Warning } else { DiagnosticSeverity::Info },
            ShutdownStageStatus::Failed => DiagnosticSeverity::Error,
        }
    }

    pub fn message(self) -> (r: &'static str)
        ensures
            r@ == status_message(self),
    {
        match self {
            ShutdownStageStatus::Started => "daemon shutdown drain stage entered",
            ShutdownStageStatus::Completed => "daemon shutdown drain stage completed",
            ShutdownStageStatus::Failed => "daemon shutdown drain stage failed",
        }
    }

    /// The status a finished stage reports.
    pub fn finished(failed: bool) -> (r: Self)
        ensures
            r == if failed { ShutdownStageStatus::Failed } else { ShutdownStageStatus::Completed },
    {
        if failed { ShutdownStageStatus::Failed } else { ShutdownStageStatus::Completed }
    }
}

/// A shutdown progress diagnostic, ready to be given an id and stored.
pub struct StageDiagnostic {
    pub severity: DiagnosticSeverity,
    pub message: String,
    pub metadata: StringMap,
}

/// Whole milliseconds of `d` nanoseconds, saturating at `u64::MAX`.
pub open spec fn millis(d: u128) -> u64 {
    if d / 1_000_000 > u64::MAX {
        u64::MAX
    } else {
        (d / 1_000_000) as u64
    }
}

pub open spec fn bool_text(b: bool) -> Seq<char> {
    if b {
        "true"@
    } else {
        "false"@
    }
}

/// Whether the stage of `p` has run for at least its slow threshold at `now`.
pub open spec fn stage_slow(p: ShutdownStageProbe, now: u128) -> bool {
    since(p.stage_started_at, now) >= p.budget / (SHUTDOWN_DRAIN_STAGE_COUNT as u128)
}

/// The metadata of a stage diagnostic.
pub open spec fn stage_metadata(p: ShutdownStageProbe, status: ShutdownStageStatus, remaining_count: usize, now: u128) -> Map<Seq<char>, Seq<char>> {
    Map::<Seq<char>, Seq<char>>::empty()
        .insert("component"@, "daemon_shutdown"@)
        .insert("code"@, status_code(status))
        .insert("stage"@, stage_name(p.stage))
        .insert("status"@, status_name(status))
        .insert("slow"@, bool_text(stage_slow(p, now)))
        .insert("remaining_unit"@, stage_unit(p.stage))
        .insert("elapsed_ms"@, decimal(millis(since(p.stage_started_at, now)) as nat))
        .insert("shutdown_elapsed_ms"@, decimal(millis(since(p.shutdown_started_at, now)) as nat))
        .insert("budget_ms"@, decimal(millis(p.budget) as nat))
        .insert("remaining_count"@, decimal(remaining_count as nat))
}

/// The diagnostic a stage reports with `status` at `now`.
pub open spec fn stage_diagnostic_holds(d: StageDiagnostic, p: ShutdownStageProbe, status: ShutdownStageStatus, remaining_count: usize, now: u128) -> bool {
    &&& d.metadata.wf()
    &&& d.severity == status_severity(status, stage_slow(p, now))
    &&& d.message@ == status_message(status)
    &&& d.metadata@ == stage_metadata(p, status, remaining_count, now)
}

fn millis_text(d: u128) -> (r: String)
    ensures
        r@ == decimal(millis(d) as nat),
{
    u64_to_decimal(ShutdownStageProbe::duration_millis(d))
}

/// The progress diagnostic of `probe`'s stage with `status` at `now`.
pub fn persist_shutdown_stage_diagnostic_fail_local(
    probe: &ShutdownStageProbe,
    status: ShutdownStageStatus,
    remaining_count: usize,
    now: u128,
) -> (r: StageDiagnostic)
    ensures
        stage_diagnostic_holds(r, *probe, status, remaining_count, now),
{
    let stage_elapsed = probe.stage_elapsed(now);
    let shutdown_elapsed = probe.shutdown_elapsed(now);
    let slow = stage_elapsed >= probe.slow_threshold();
    let mut metadata = StringMap::new();
    metadata.insert(String::from_str("component"), String::from_str("daemon_shutdown"));
    metadata.insert(String::from_str("code"), String::from_str(status.code()));
    metadata.insert(String::from_str("stage"), String::from_str(probe.stage.as_str()));
    metadata.insert(String::from_str("status"), String::from_str(status.as_str()));
    metadata.insert(String::from_str("slow"), String::from_str(if slow { "true" } else { "false" }));
    metadata.insert(String::from_str("remaining_unit"), String::from_str(probe.stage.remaining_unit()));
    metadata.insert(String::from_str("elapsed_ms"), millis_text(stage_elapsed));
    metadata.insert(String::from_str("shutdown_elapsed_ms"), millis_text(shutdown_elapsed));
    metadata.insert(String::from_str("budget_ms"), millis_text(probe.budget));
    metadata.insert(String::from_str("remaining_count"), u64_to_decimal(remaining_count as u64));
    StageDiagnostic { severity: status.severity(slow), message: String::from_str(status.message()), metadata }
}

/// Opens the probe of a stage at `now` and the diagnostic that reports
/// the stage entered. The stage clock of the returned probe still reads
/// `now`: the caller persists the diagnostic and then restarts the clock
/// with [`ShutdownStageProbe::mark_stage_started`] at a reading taken after
/// that write, so that the write does not count against the stage.
pub fn begin_shutdown_stage_probe(
    stage: ShutdownDrainStage,
    budget: u128,
    remaining_count: usize,
    shutdown_started_at: u128,
    now: u128,
) -> (r: (ShutdownStageProbe, StageDiagnostic))
    ensures
        r.0 == (ShutdownStageProbe { stage, budget, shutdown_started_at, stage_started_at: now }),
        stage_diagnostic_holds(r.1, r.0, ShutdownStageStatus::Started, remaining_count, now),
{
    let probe = ShutdownStageProbe::new(stage, budget, shutdown_started_at, now);
    let diagnostic = persist_shutdown_stage_diagnostic_fail_local(&probe, ShutdownStageStatus::Started, remaining_count, now);
    (probe, diagnostic)
}

/// The diagnostic that reports how the stage of `probe` ended at `now`:
/// failed when it ended with an error, completed otherwise.
pub fn finish_shutdown_stage_probe(probe: ShutdownStageProbe, remaining_count: usize, failed: bool, now: u128) -> (r: StageDiagnostic)
    ensures
        stage_diagnostic_holds(
            r,
            probe,
            if failed { ShutdownStageStatus::Failed } else { ShutdownStageStatus::Completed },
            remaining_count,
            now,
        ),
{
    let status = ShutdownStageStatus::finished(failed);
    persist_shutdown_stage_diagnostic_fail_local(&probe, status, remaining_count, now)
}

/// The alert stage's remaining count: one while writes may be outstanding,
/// which is assumed when the alert ingress cannot tell (`None`).
pub fn shutdown_alert_remaining_count(has_outstanding_writes: Option<bool>) -> (r: usize)
    ensures
        r == (if has_outstanding_writes == Some(false) { 0usize } else { 1usize }),
{
    match has_outstanding_writes {
        Some(false) => 0,
        _ => 1,
    }
}

/// The result of a shutdown drain given the failures of its stages, in order.
pub fn shutdown_outcome(failures: &[String]) -> (r: Result<(), ControlError>)
    ensures
        failures@.len() == 0 ==> r is Ok,
        failures@.len() > 0 ==> (r matches Err(e) && e.code@ == "daemon_shutdown"@ && e.message@ == joined(
            texts(failures@),
            "; "@,
        )),
{
    if failures.len() == 0 {
        return Ok(());
    }
    let mut message = failures[0].clone();
    let mut i: usize = 1;
    while i < failures.len()
        invariant
            1 <= i <= failures@.len(),
            message@ == joined(texts(failures@).subrange(0, i as int), "; "@),
        decreases failures@.len() - i,
    {
        proof {
            let p = texts(failures@).subrange(0, i as int + 1);
            assert(p.drop_last() =~= texts(failures@).subrange(0, i as int));
            assert(p.last() == failures@[i as int]@);
        }
        message.append("; ");
        message.append(failures[i].as_str());
        i += 1;
    }
    assert(texts(failures@).subrange(0, failures@.len() as int) =~= texts(failures@));
    Err(ControlError { code: String::from_str("daemon_shutdown"), message })
}

/// The budget a stage gets at `now` from `deadline`, capped at `stage_limit`.
pub open spec fn stage_budget(deadline: Option<u128>, now: u128, stage_limit: u128) -> u128 {
    min_u128(match deadline {
        Some(d) => if d > now { (d - now) as u128 } else { 0 },
        None => 0,
    }, stage_limit)
}

pub open spec fn expired(deadline: Option<u128>, now: u128) -> bool {
    match deadline {
        Some(d) => now >= d,
        None => true,
    }
}

/// Law: no stage gets more than its own limit or more than is left before
/// the global deadline; once the deadline has passed every stage gets
/// nothing, and before it a stage with a positive limit gets some time.
pub proof fn law_stage_budget_within_deadline(deadline: Option<u128>, now: u128, stage_limit: u128)
    ensures
        stage_budget(deadline, now, stage_limit) <= stage_limit,
        deadline matches Some(d) ==> now + stage_budget(deadline, now, stage_limit) <= d || stage_budget(
            deadline,
            now,
            stage_limit,
        ) == 0,
        expired(deadline, now) <==> stage_budget(deadline, now, u128::MAX) == 0,
        !expired(deadline, now) && stage_limit > 0 ==> stage_budget(deadline, now, stage_limit) > 0,
{
}

/// Law: a stage that finished with an error reports an error diagnostic; a
/// completed stage warns exactly when it took at least a fifth of its budget.
pub proof fn law_finished_stage_severity(p: ShutdownStageProbe, now: u128, failed: bool)
    ensures
        failed ==> status_severity(ShutdownStageStatus::Failed, stage_slow(p, now)) == DiagnosticSeverity::Error,
        !failed ==> (status_severity(ShutdownStageStatus::Completed, stage_slow(p, now)) == DiagnosticSeverity::Warning
            <==> since(p.stage_started_at, now) >= p.budget / 5),
{
}

} // verus!
