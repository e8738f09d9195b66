//! Draining running post-trace analysis tasks, for one plugin instance that
//! unloads or for the whole daemon at shutdown: which tasks the drain waits
//! for, and what each poll of the drain loop does next.
//!
//! The caller runs the loop: it polls the coordinator, reads the clock,
//! performs the cancellations and sleeps, and hands the facts to
//! [`post_trace_drain_step`]. Durations are nanoseconds.

use vstd::prelude::*;
use crate::shutdown::ControlError;
use crate::text::{decimal, push_decimal_u128};

verus! {

/// Whose tasks a drain waits for.
#[derive(Clone, Copy)]
pub enum PostTraceDrainTarget<'a> {
    Instance(&'a str),
    All,
}

pub open spec fn texts(s: Seq<String>) -> Seq<Seq<char>> {
    s.map_values(|x: String| x@)
}

impl<'a> PostTraceDrainTarget<'a> {
    /// Whether tasks of the target run, given the instances with running
    /// tasks.
    pub fn has_running_tasks(self, running_instances: &[String]) -> (r: bool)
        ensures
            r == match self {
                PostTraceDrainTarget::Instance(id) => texts(running_instances@).contains(id@),
                PostTraceDrainTarget::All => running_instances@.len() > 0,
            },
    {
        match self {
            PostTraceDrainTarget::Instance(id) => {
                let target = String::from_str(id);
                let mut i: usize = 0;
                while i < running_instances.len()
                    invariant
                        i <= running_instances@.len(),
                        target@ == id@,
                        self == PostTraceDrainTarget::Instance(id),
                        forall|j: int| 0 <= j < i ==> running_instances@[j]@ != id@,
                    decreases running_instances@.len() - i,
                {
                    if running_instances[i] == target {
                        assert(texts(running_instances@)[i as int] == id@);
                        return true;
                    }
                    i += 1;
                }
                proof {
                    if texts(running_instances@).contains(id@) {
                        let j = choose|j: int| 0 <= j < texts(running_instances@).len() && texts(running_instances@)[j] == id@;
                        assert(texts(running_instances@)[j] == running_instances@[j]@);
                    }
                }
                false
            },
            PostTraceDrainTarget::All => running_instances.len() > 0,
        }
    }

    /// The instances whose running tasks the drain cancels.
    pub fn running_instance_ids(self, running_instances: &[String]) -> (r: Vec<String>)
        ensures
            texts(r@) == match self {
                PostTraceDrainTarget::Instance(id) => if texts(running_instances@).contains(id@) {
                    seq![id@]
                } else {
                    Seq::<Seq<char>>::empty()
                },
                PostTraceDrainTarget::All => texts(running_instances@),
            },
    {
        match self {
            PostTraceDrainTarget::Instance(id) => {
                if self.has_running_tasks(running_instances) {
                    let mut v = Vec::new();
                    v.push(String::from_str(id));
                    assert(texts(v@) =~= seq![id@]);
                    v
                } else {
                    let v: Vec<String> = Vec::new();
                    assert(texts(v@) =~= Seq::<Seq<char>>::empty());
                    v
                }
            },
            PostTraceDrainTarget::All => {
                let mut v: Vec<String> = Vec::new();
                let mut i: usize = 0;
                while i < running_instances.len()
                    invariant
                        i <= running_instances@.len(),
                        texts(v@) == texts(running_instances@).subrange(0, i as int),
                    decreases running_instances@.len() - i,
                {
                    let c = running_instances[i].clone();
                    let ghost before = v@;
                    v.push(c);
                    assert(texts(v@) =~= texts(before).push(c@));
                    assert(texts(v@) =~= texts(running_instances@).subrange(0, i as int + 1));
                    i += 1;
                }
                assert(texts(running_instances@).subrange(0, i as int) =~= texts(running_instances@));
                v
            },
        }
    }

    /// The instance drained, when the drain is for one instance.
    pub fn instance_id(self) -> (r: Option<&'a str>)
        ensures
            r == match self {
                PostTraceDrainTarget::Instance(id) => Some(id),
                PostTraceDrainTarget::All => None::<&'a str>,
            },
    {
        match self {
            PostTraceDrainTarget::Instance(id) => Some(id),
            PostTraceDrainTarget::All => None,
        }
    }

    /// How the drain names its target in a timeout message.
    pub fn label(self) -> (r: &'a str)
        ensures
            r@ == match self {
                PostTraceDrainTarget::Instance(id) => id@,
                PostTraceDrainTarget::All => "daemon shutdown"@,
            },
    {
        match self {
            PostTraceDrainTarget::Instance(id) => id,
            PostTraceDrainTarget::All => "daemon shutdown",
        }
    }
}

/// When running tasks get cancelled: the drain timeout less the grace the
/// broker needs to answer a cancellation; a timeout shorter than the grace
/// is a configuration error.
pub fn post_trace_cancel_after(drain_timeout: u128, cancellation_grace: u128) -> (r: Result<u128, ControlError>)
    ensures
        drain_timeout >= cancellation_grace ==> r == Ok::<u128, ControlError>((drain_timeout - cancellation_grace) as u128),
        drain_timeout < cancellation_grace ==> (r matches Err(e) && e.code@ == "post_trace_config"@
            && e.message@ == "post-trace drain timeout does not reserve cancellation time"@),
{
    if drain_timeout >= cancellation_grace {
        Ok(drain_timeout - cancellation_grace)
    } else {
        Err(
            ControlError {
                code: String::from_str("post_trace_config"),
                message: String::from_str("post-trace drain timeout does not reserve cancellation time"),
            },
        )
    }
}

/// What the drain loop does after one poll.
pub enum PostTraceDrainStep {
    /// No task of the target runs any more.
    Done,
    /// Cancel the running tasks first when `cancel`, then sleep `sleep_for`
    /// (yield when zero) and poll again.
    Wait { cancel: bool, sleep_for: u128 },
    /// Cancel when `cancel`, record the timeout diagnostics, and fail.
    TimedOut { cancel: bool, error: ControlError },
}

pub open spec fn min_u128(a: u128, b: u128) -> u128 {
    if a < b {
        a
    } else {
        b
    }
}

/// Whole milliseconds of `d` nanoseconds.
pub open spec fn millis_of(d: u128) -> nat {
    (d / 1_000_000) as nat
}

/// The timeout message of a drain.
pub open spec fn drain_timeout_message(label: Seq<char>, drain_timeout: u128) -> Seq<char> {
    label + " still has running post-trace tasks after "@ + decimal(millis_of(drain_timeout)) + "ms"@
}

/// One poll of the drain of `target`, `elapsed` after it started: done once
/// nothing runs; past `cancel_after` running tasks are cancelled; past the
/// drain timeout the drain fails; otherwise it sleeps the poll interval,
/// cut to what is left of the timeout and, before the cancellation point,
/// to what is left until it.
pub fn post_trace_drain_step(
    target: PostTraceDrainTarget,
    running: bool,
    elapsed: u128,
    drain_timeout: u128,
    cancel_after: u128,
    poll_interval: u128,
) -> (r: PostTraceDrainStep)
    ensures
        !running ==> r is Done,
        running && elapsed >= drain_timeout ==> (r matches PostTraceDrainStep::TimedOut { cancel, error }
            && cancel == (elapsed >= cancel_after) && error.code@ == "post_trace_drain_timeout"@
            && error.message@ == drain_timeout_message(
            match target {
                PostTraceDrainTarget::Instance(id) => id@,
                PostTraceDrainTarget::All => "daemon shutdown"@,
            },
            drain_timeout,
        )),
        running && elapsed < drain_timeout ==> (r matches PostTraceDrainStep::Wait { cancel, sleep_for }
            && cancel == (elapsed >= cancel_after) && sleep_for == (if elapsed < cancel_after {
            min_u128(min_u128(poll_interval, (drain_timeout - elapsed) as u128), (cancel_after - elapsed) as u128)
        } else {
            min_u128(poll_interval, (drain_timeout - elapsed) as u128)
        })),
{
    if !running {
        return PostTraceDrainStep::Done;
    }
    let cancel = elapsed >= cancel_after;
    if elapsed >= drain_timeout {
        let mut m = String::from_str(target.label());
        m.append(" still has running post-trace tasks after ");
        push_decimal_u128(&mut m, drain_timeout / 1_000_000);
        m.append("ms");
        return PostTraceDrainStep::TimedOut {
            cancel,
            error: ControlError { code: String::from_str("post_trace_drain_timeout"), message: m },
        };
    }
    let remaining = drain_timeout - elapsed;
    let mut sleep_for = if poll_interval < remaining { poll_interval } else { remaining };
    if elapsed < cancel_after {
        let until_cancel = cancel_after - elapsed;
        if until_cancel < sleep_for {
            sleep_for = until_cancel;
        }
    }
    PostTraceDrainStep::Wait { cancel, sleep_for }
}

/// The sleep a drain step asks for, when it asks to wait.
pub open spec fn wait_of(step: PostTraceDrainStep) -> Option<(bool, u128)> {
    match step {
        PostTraceDrainStep::Wait { cancel, sleep_for } => Some((cancel, sleep_for)),
        _ => None,
    }
}

/// Law: a drain never sleeps past its timeout, nor past the cancellation
/// point before reaching it; it cancels exactly once past the cancellation
/// point; and while tasks run it ends only by timing out.
pub proof fn law_drain_sleep_bounded(
    step: PostTraceDrainStep,
    running: bool,
    elapsed: u128,
    drain_timeout: u128,
    cancel_after: u128,
    poll_interval: u128,
)
    requires
        running,
        elapsed < drain_timeout,
        step matches PostTraceDrainStep::Wait { cancel, sleep_for } && cancel == (elapsed >= cancel_after)
            && sleep_for == (if elapsed < cancel_after {
            min_u128(min_u128(poll_interval, (drain_timeout - elapsed) as u128), (cancel_after - elapsed) as u128)
        } else {
            min_u128(poll_interval, (drain_timeout - elapsed) as u128)
        }),
    ensures
        wait_of(step) matches Some((cancel, sleep_for)) && elapsed + sleep_for <= drain_timeout && sleep_for
            <= poll_interval && (elapsed < cancel_after ==> elapsed + sleep_for <= cancel_after && !cancel) && (
        elapsed >= cancel_after ==> cancel),
{
}

} // verus!
