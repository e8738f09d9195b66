//! The daemon's shutdown drain as a sequence of decisions: the stages run
//! in a fixed order, each with a budget cut from the global deadline and
//! its own limit; a failed stage is recorded under its name and the drain
//! goes on; the drain fails with every recorded failure joined. The caller
//! does each stage's work, reads the clock and persists the diagnostics.

use vstd::prelude::*;
use crate::live::{joined, texts};
use crate::shutdown::{
    begin_shutdown_stage_probe, finish_shutdown_stage_probe, shutdown_deadline_exhausted, shutdown_outcome, stage_budget,
    stage_diagnostic_holds, stage_name, ControlError, ShutdownDeadline, ShutdownDrainStage, ShutdownStageProbe,
    ShutdownStageStatus, StageDiagnostic,
};

verus! {

/// The per-stage limits: the finalization drain limit (terminal
/// finalization, unsettled semantics and export), the post-trace
/// coordinator's drain limit and the alert ingress's drain limit.
#[derive(Clone, Copy, Debug)]
pub struct ShutdownStageLimits {
    pub finalization: u128,
    pub post_trace: u128,
    pub alert: u128,
}

pub open spec fn stage_limit(l: ShutdownStageLimits, stage: ShutdownDrainStage) -> u128 {
    match stage {
        ShutdownDrainStage::PostTrace => l.post_trace,
        ShutdownDrainStage::Alert => l.alert,
        _ => l.finalization,
    }
}

/// The stage after `stage`: terminal finalization, unsettled semantics,
/// post-trace, export, alert; none after the alert stage.
pub open spec fn next_stage(stage: ShutdownDrainStage) -> Option<ShutdownDrainStage> {
    match stage {
        ShutdownDrainStage::TerminalFinalization => Some(ShutdownDrainStage::UnsettledSemantics),
        ShutdownDrainStage::UnsettledSemantics => Some(ShutdownDrainStage::PostTrace),
        ShutdownDrainStage::PostTrace => Some(ShutdownDrainStage::Export),
        ShutdownDrainStage::Export => Some(ShutdownDrainStage::Alert),
        ShutdownDrainStage::Alert => None,
    }
}

/// The words a stage's failure is recorded under.
pub open spec fn failure_prefix(stage: ShutdownDrainStage) -> Seq<char> {
    match stage {
        ShutdownDrainStage::TerminalFinalization => "terminal finalization"@,
        ShutdownDrainStage::UnsettledSemantics => "unsettled semantic finalization"@,
        ShutdownDrainStage::PostTrace => "post-trace drain"@,
        ShutdownDrainStage::Export => "observation exporter drain"@,
        ShutdownDrainStage::Alert => "alert drain"@,
    }
}

/// The failure recorded for `stage` ending with the error `code: message`.
pub open spec fn failure_text(stage: ShutdownDrainStage, code: Seq<char>, message: Seq<char>) -> Seq<char> {
    failure_prefix(stage) + ": "@ + code + ": "@ + message
}

fn failure_prefix_str(stage: ShutdownDrainStage) -> (r: &'static str)
    ensures
        r@ == failure_prefix(stage),
{
    match stage {
        ShutdownDrainStage::TerminalFinalization => "terminal finalization",
        ShutdownDrainStage::UnsettledSemantics => "unsettled semantic finalization",
        ShutdownDrainStage::PostTrace => "post-trace drain",
        ShutdownDrainStage::Export => "observation exporter drain",
        ShutdownDrainStage::Alert => "alert drain",
    }
}

/// A shutdown drain under way: when it started, its global deadline, the
/// stage limits, the stage to run next (none once all have run) and the
/// failures recorded so far, in order.
pub struct ShutdownDrain {
    pub started_at: u128,
    pub deadline: ShutdownDeadline,
    pub limits: ShutdownStageLimits,
    pub stage: Option<ShutdownDrainStage>,
    pub failures: Vec<String>,
}

impl ShutdownDrain {
    /// A drain started at `started_at` with the global timeout
    /// `runtime_timeout`, about to run its first stage.
    pub fn start(started_at: u128, runtime_timeout: u128, limits: ShutdownStageLimits) -> (r: Self)
        ensures
            r.started_at == started_at,
            r.deadline.deadline == (if started_at + runtime_timeout <= u128::MAX {
                Some((started_at + runtime_timeout) as u128)
            } else {
                None::<u128>
            }),
            r.limits == limits,
            r.stage == Some(ShutdownDrainStage::TerminalFinalization),
            r.failures@.len() == 0,
    {
        ShutdownDrain {
            started_at,
            deadline: ShutdownDeadline::new(started_at, runtime_timeout),
            limits,
            stage: Some(ShutdownDrainStage::TerminalFinalization),
            failures: Vec::new(),
        }
    }

    /// Opens the next stage at `now`: its probe, whose budget is what is
    /// left of the global deadline capped at the stage's limit, and the
    /// diagnostic that reports it entered with `remaining_count` items. The
    /// caller persists the diagnostic, restarts the probe's clock after the
    /// write ([`ShutdownStageProbe::mark_stage_started`]) and runs the stage
    /// within the budget.
    pub fn begin_stage(&self, remaining_count: usize, now: u128) -> (r: (ShutdownStageProbe, StageDiagnostic))
        requires
            self.stage is Some,
        ensures
            r.0 == (ShutdownStageProbe {
                stage: self.stage.unwrap(),
                budget: stage_budget(self.deadline.deadline, now, stage_limit(self.limits, self.stage.unwrap())),
                shutdown_started_at: self.started_at,
                stage_started_at: now,
            }),
            stage_diagnostic_holds(r.1, r.0, ShutdownStageStatus::Started, remaining_count, now),
    {
        let stage = match self.stage {
            Some(s) => s,
            None => ShutdownDrainStage::Alert,
        };
        let limit = match stage {
            ShutdownDrainStage::PostTrace => self.limits.post_trace,
            ShutdownDrainStage::Alert => self.limits.alert,
            _ => self.limits.finalization,
        };
        let budget = self.deadline.remaining_budget(now, limit);
        begin_shutdown_stage_probe(stage, budget, remaining_count, self.started_at, now)
    }

    /// The result of the export stage: with no budget left the deadline is
    /// exhausted and the exporters are not drained (`drained` is none);
    /// otherwise the drain's result, unless the deadline has passed by
    /// `now`, when it ran.
    pub fn export_result(&self, budget: u128, drained: Option<Result<(), ControlError>>, now: u128) -> (r: Result<(), ControlError>)
        requires
            (budget == 0) == (drained is None),
        ensures
            budget == 0 || crate::shutdown::expired(self.deadline.deadline, now) ==> (r matches Err(e) && e.code@
                == "daemon_shutdown_deadline"@ && e.message@ == "global shutdown deadline exhausted before "@
                + stage_name(ShutdownDrainStage::Export) + " completed"@),
            budget != 0 && !crate::shutdown::expired(self.deadline.deadline, now) ==> (match drained {
                Some(Ok(())) => r is Ok,
                Some(Err(d)) => r matches Err(e) && e.code@ == d.code@ && e.message@ == d.message@,
                None => false,
            }),
    {
        if budget == 0 {
            return Err(shutdown_deadline_exhausted(ShutdownDrainStage::Export));
        }
        if self.deadline.is_expired(now) {
            return Err(shutdown_deadline_exhausted(ShutdownDrainStage::Export));
        }
        match drained {
            Some(Ok(())) => Ok(()),
            Some(Err(d)) => Err(d),
            None => Ok(()),
        }
    }

    /// Closes the current stage with its result at `now`: the diagnostic
    /// that reports it completed or failed (the export stage with nothing
    /// left, the others with `remaining_count`), a failure recorded under
    /// the stage's name, and the drain moved on to the next stage.
    pub fn finish_stage(&mut self, probe: ShutdownStageProbe, remaining_count: usize, result: Result<(), ControlError>, now: u128) -> (d: StageDiagnostic)
        requires
            old(self).stage == Some(probe.stage),
        ensures
            stage_diagnostic_holds(
                d,
                probe,
                if result is Err { ShutdownStageStatus::Failed } else { ShutdownStageStatus::Completed },
                if probe.stage == ShutdownDrainStage::Export { 0usize } else { remaining_count },
                now,
            ),
            final(self).stage == next_stage(probe.stage),
            final(self).started_at == old(self).started_at,
            final(self).deadline.deadline == old(self).deadline.deadline,
            final(self).limits == old(self).limits,
            texts(final(self).failures@) == (match result {
                Ok(()) => texts(old(self).failures@),
                Err(e) => texts(old(self).failures@).push(failure_text(probe.stage, e.code@, e.message@)),
            }),
    {
        let stage = probe.stage;
        let count = match stage {
            ShutdownDrainStage::Export => 0usize,
            _ => remaining_count,
        };
        let failed = result.is_err();
        let d = finish_shutdown_stage_probe(probe, count, failed, now);
        match result {
            Ok(()) => {},
            Err(e) => {
                let mut text = String::from_str(failure_prefix_str(stage));
                text.append(": ");
                text.append(e.code.as_str());
                text.append(": ");
                text.append(e.message.as_str());
                let ghost old_failures = self.failures@;
                self.failures.push(text);
                proof {
                    assert(texts(self.failures@) =~= texts(old_failures).push(failure_text(stage, e.code@, e.message@)));
                }
            },
        }
        self.stage = match stage {
            ShutdownDrainStage::TerminalFinalization => Some(ShutdownDrainStage::UnsettledSemantics),
            ShutdownDrainStage::UnsettledSemantics => Some(ShutdownDrainStage::PostTrace),
            ShutdownDrainStage::PostTrace => Some(ShutdownDrainStage::Export),
            ShutdownDrainStage::Export => Some(ShutdownDrainStage::Alert),
            ShutdownDrainStage::Alert => None,
        };
        d
    }

    /// What the drain answers once its stages have run: success without
    /// failures, else the failures joined by `; `.
    pub fn outcome(&self) -> (r: Result<(), ControlError>)
        ensures
            self.failures@.len() == 0 ==> r is Ok,
            self.failures@.len() > 0 ==> (r matches Err(e) && e.code@ == "daemon_shutdown"@ && e.message@ == joined(
                texts(self.failures@),
                "; "@,
            )),
    {
        shutdown_outcome(self.failures.as_slice())
    }
}

} // verus!
