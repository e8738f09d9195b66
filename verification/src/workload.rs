//! Workload diagnostics: counters the drain cycle bumps as it works, read
//! and reset as one snapshot per reporting interval and logged as one line.
//!
//! The counters are plain values here; a caller that shares them between
//! threads holds them behind a lock. Durations are nanoseconds.

use vstd::prelude::*;
use crate::text::{decimal, push_decimal};

verus! {

/// `a + b` wrapping at 2^64, as `AtomicU64::fetch_add` adds.
pub open spec fn wrap_add(a: u64, b: u64) -> u64 {
    if a + b > u64::MAX {
        (a + b - 18446744073709551616int) as u64
    } else {
        (a + b) as u64
    }
}

pub open spec fn max_u64(a: u64, b: u64) -> u64 {
    if a >= b {
        a
    } else {
        b
    }
}

/// One workload counter.
pub struct Counter {
    value: u64,
}

impl View for Counter {
    type V = u64;

    closed spec fn view(&self) -> u64 {
        self.value
    }
}

impl Counter {
    pub fn new() -> (r: Self)
        ensures
            r@ == 0,
    {
        Counter { value: 0 }
    }

    /// Adds `value`, wrapping on overflow.
    pub fn add(&mut self, value: u64)
        ensures
            final(self)@ == wrap_add(old(self)@, value),
    {
        self.value = self.value.wrapping_add(value);
    }

    /// Raises the counter to `value` if that is larger.
    pub fn max(&mut self, value: u64)
        ensures
            final(self)@ == max_u64(old(self)@, value),
    {
        if value > self.value {
            self.value = value;
        }
    }

    /// Reads the counter and resets it to zero.
    pub fn take(&mut self) -> (r: u64)
        ensures
            r == old(self)@,
            final(self)@ == 0,
    {
        let r = self.value;
        self.value = 0;
        r
    }

    pub fn get(&self) -> (r: u64)
        ensures
            r == self@,
    {
        self.value
    }
}

/// The values of all workload counters at one moment.
#[derive(Clone, Copy, Debug, PartialEq, Eq, Structural)]
pub struct WorkloadSnapshot {
    pub ready_cycles: u64,
    pub listener_ready: u64,
    pub control_ready: u64,
    pub event_source_ready: u64,
    pub background_ready: u64,
    pub event_fds_sampled: u64,
    pub event_fds_max: u64,
    pub drain_calls: u64,
    pub drain_active_path: u64,
    pub drain_idle_path: u64,
    pub drain_errors: u64,
    pub drain_elapsed_max_us: u64,
    pub active_binding_samples: u64,
    pub active_binding_max: u64,
    pub collector_batches: u64,
    pub collector_empty_batches: u64,
    pub collector_observations: u64,
    pub collector_payload_segments: u64,
    pub tls_sync_segments: u64,
    pub seccomp_tls_segments: u64,
    pub seccomp_socket_segments: u64,
    pub projected_input_events: u64,
    pub retained_events: u64,
    pub semantic_actions: u64,
    pub semantic_links: u64,
    pub storage_batches: u64,
    pub storage_events: u64,
    pub storage_payload_segments: u64,
    pub storage_diagnostics: u64,
    pub storage_semantic_actions: u64,
    pub storage_semantic_links: u64,
    pub storage_trace_states: u64,
    pub storage_errors: u64,
    pub storage_elapsed_max_us: u64,
    pub payload_retention_checks: u64,
    pub payload_retention_check_max_us: u64,
    pub payload_semantic_observes: u64,
    pub payload_semantic_observe_max_us: u64,
    pub payload_segment_persists: u64,
    pub payload_segment_persist_max_us: u64,
    pub payload_application_analyzes: u64,
    pub payload_application_analyze_outputs: u64,
    pub payload_application_analyze_max_us: u64,
    pub payload_application_persists: u64,
    pub payload_application_persist_max_us: u64,
}

/// A snapshot with every counter at zero.
pub open spec fn zero_snapshot() -> WorkloadSnapshot {
    WorkloadSnapshot {
        ready_cycles: 0,
        listener_ready: 0,
        control_ready: 0,
        event_source_ready: 0,
        background_ready: 0,
        event_fds_sampled: 0,
        event_fds_max: 0,
        drain_calls: 0,
        drain_active_path: 0,
        drain_idle_path: 0,
        drain_errors: 0,
        drain_elapsed_max_us: 0,
        active_binding_samples: 0,
        active_binding_max: 0,
        collector_batches: 0,
        collector_empty_batches: 0,
        collector_observations: 0,
        collector_payload_segments: 0,
        tls_sync_segments: 0,
        seccomp_tls_segments: 0,
        seccomp_socket_segments: 0,
        projected_input_events: 0,
        retained_events: 0,
        semantic_actions: 0,
        semantic_links: 0,
        storage_batches: 0,
        storage_events: 0,
        storage_payload_segments: 0,
        storage_diagnostics: 0,
        storage_semantic_actions: 0,
        storage_semantic_links: 0,
        storage_trace_states: 0,
        storage_errors: 0,
        storage_elapsed_max_us: 0,
        payload_retention_checks: 0,
        payload_retention_check_max_us: 0,
        payload_semantic_observes: 0,
        payload_semantic_observe_max_us: 0,
        payload_segment_persists: 0,
        payload_segment_persist_max_us: 0,
        payload_application_analyzes: 0,
        payload_application_analyze_outputs: 0,
        payload_application_analyze_max_us: 0,
        payload_application_persists: 0,
        payload_application_persist_max_us: 0,
    }
}

/// The workload counters.
pub struct WorkloadCounters {
    pub ready_cycles: Counter,
    pub listener_ready: Counter,
    pub control_ready: Counter,
    pub event_source_ready: Counter,
    pub background_ready: Counter,
    pub event_fds_sampled: Counter,
    pub event_fds_max: Counter,
    pub drain_calls: Counter,
    pub drain_active_path: Counter,
    pub drain_idle_path: Counter,
    pub drain_errors: Counter,
    pub drain_elapsed_max_us: Counter,
    pub active_binding_samples: Counter,
    pub active_binding_max: Counter,
    pub collector_batches: Counter,
    pub collector_empty_batches: Counter,
    pub collector_observations: Counter,
    pub collector_payload_segments: Counter,
    pub tls_sync_segments: Counter,
    pub seccomp_tls_segments: Counter,
    pub seccomp_socket_segments: Counter,
    pub projected_input_events: Counter,
    pub retained_events: Counter,
    pub semantic_actions: Counter,
    pub semantic_links: Counter,
    pub storage_batches: Counter,
    pub storage_events: Counter,
    pub storage_payload_segments: Counter,
    pub storage_diagnostics: Counter,
    pub storage_semantic_actions: Counter,
    pub storage_semantic_links: Counter,
    pub storage_trace_states: Counter,
    pub storage_errors: Counter,
    pub storage_elapsed_max_us: Counter,
    pub payload_retention_checks: Counter,
    pub payload_retention_check_max_us: Counter,
    pub payload_semantic_observes: Counter,
    pub payload_semantic_observe_max_us: Counter,
    pub payload_segment_persists: Counter,
    pub payload_segment_persist_max_us: Counter,
    pub payload_application_analyzes: Counter,
    pub payload_application_analyze_outputs: Counter,
    pub payload_application_analyze_max_us: Counter,
    pub payload_application_persists: Counter,
    pub payload_application_persist_max_us: Counter,
}

impl View for WorkloadCounters {
    type V = WorkloadSnapshot;

    open spec fn view(&self) -> WorkloadSnapshot {
        WorkloadSnapshot {
            ready_cycles: self.ready_cycles@,
            listener_ready: self.listener_ready@,
            control_ready: self.control_ready@,
            event_source_ready: self.event_source_ready@,
            background_ready: self.background_ready@,
            event_fds_sampled: self.event_fds_sampled@,
            event_fds_max: self.event_fds_max@,
            drain_calls: self.drain_calls@,
            drain_active_path: self.drain_active_path@,
            drain_idle_path: self.drain_idle_path@,
            drain_errors: self.drain_errors@,
            drain_elapsed_max_us: self.drain_elapsed_max_us@,
            active_binding_samples: self.active_binding_samples@,
            active_binding_max: self.active_binding_max@,
            collector_batches: self.collector_batches@,
            collector_empty_batches: self.collector_empty_batches@,
            collector_observations: self.collector_observations@,
            collector_payload_segments: self.collector_payload_segments@,
            tls_sync_segments: self.tls_sync_segments@,
            seccomp_tls_segments: self.seccomp_tls_segments@,
            seccomp_socket_segments: self.seccomp_socket_segments@,
            projected_input_events: self.projected_input_events@,
            retained_events: self.retained_events@,
            semantic_actions: self.semantic_actions@,
            semantic_links: self.semantic_links@,
            storage_batches: self.storage_batches@,
            storage_events: self.storage_events@,
            storage_payload_segments: self.storage_payload_segments@,
            storage_diagnostics: self.storage_diagnostics@,
            storage_semantic_actions: self.storage_semantic_actions@,
            storage_semantic_links: self.storage_semantic_links@,
            storage_trace_states: self.storage_trace_states@,
            storage_errors: self.storage_errors@,
            storage_elapsed_max_us: self.storage_elapsed_max_us@,
            payload_retention_checks: self.payload_retention_checks@,
            payload_retention_check_max_us: self.payload_retention_check_max_us@,
            payload_semantic_observes: self.payload_semantic_observes@,
            payload_semantic_observe_max_us: self.payload_semantic_observe_max_us@,
            payload_segment_persists: self.payload_segment_persists@,
            payload_segment_persist_max_us: self.payload_segment_persist_max_us@,
            payload_application_analyzes: self.payload_application_analyzes@,
            payload_application_analyze_outputs: self.payload_application_analyze_outputs@,
            payload_application_analyze_max_us: self.payload_application_analyze_max_us@,
            payload_application_persists: self.payload_application_persists@,
            payload_application_persist_max_us: self.payload_application_persist_max_us@,
        }
    }
}

impl WorkloadCounters {
    pub fn new() -> (r: Self)
        ensures
            r@ == zero_snapshot(),
    {
        WorkloadCounters {
            ready_cycles: Counter::new(),
            listener_ready: Counter::new(),
            control_ready: Counter::new(),
            event_source_ready: Counter::new(),
            background_ready: Counter::new(),
            event_fds_sampled: Counter::new(),
            event_fds_max: Counter::new(),
            drain_calls: Counter::new(),
            drain_active_path: Counter::new(),
            drain_idle_path: Counter::new(),
            drain_errors: Counter::new(),
            drain_elapsed_max_us: Counter::new(),
            active_binding_samples: Counter::new(),
            active_binding_max: Counter::new(),
            collector_batches: Counter::new(),
            collector_empty_batches: Counter::new(),
            collector_observations: Counter::new(),
            collector_payload_segments: Counter::new(),
            tls_sync_segments: Counter::new(),
            seccomp_tls_segments: Counter::new(),
            seccomp_socket_segments: Counter::new(),
            projected_input_events: Counter::new(),
            retained_events: Counter::new(),
            semantic_actions: Counter::new(),
            semantic_links: Counter::new(),
            storage_batches: Counter::new(),
            storage_events: Counter::new(),
            storage_payload_segments: Counter::new(),
            storage_diagnostics: Counter::new(),
            storage_semantic_actions: Counter::new(),
            storage_semantic_links: Counter::new(),
            storage_trace_states: Counter::new(),
            storage_errors: Counter::new(),
            storage_elapsed_max_us: Counter::new(),
            payload_retention_checks: Counter::new(),
            payload_retention_check_max_us: Counter::new(),
            payload_semantic_observes: Counter::new(),
            payload_semantic_observe_max_us: Counter::new(),
            payload_segment_persists: Counter::new(),
            payload_segment_persist_max_us: Counter::new(),
            payload_application_analyzes: Counter::new(),
            payload_application_analyze_outputs: Counter::new(),
            payload_application_analyze_max_us: Counter::new(),
            payload_application_persists: Counter::new(),
            payload_application_persist_max_us: Counter::new(),
        }
    }

    /// Reads every counter and resets it to zero.
    pub fn snapshot_and_reset(&mut self) -> (r: WorkloadSnapshot)
        ensures
            r == old(self)@,
            final(self)@ == zero_snapshot(),
    {
        WorkloadSnapshot {
            ready_cycles: self.ready_cycles.take(),
            listener_ready: self.listener_ready.take(),
            control_ready: self.control_ready.take(),
            event_source_ready: self.event_source_ready.take(),
            background_ready: self.background_ready.take(),
            event_fds_sampled: self.event_fds_sampled.take(),
            event_fds_max: self.event_fds_max.take(),
            drain_calls: self.drain_calls.take(),
            drain_active_path: self.drain_active_path.take(),
            drain_idle_path: self.drain_idle_path.take(),
            drain_errors: self.drain_errors.take(),
            drain_elapsed_max_us: self.drain_elapsed_max_us.take(),
            active_binding_samples: self.active_binding_samples.take(),
            active_binding_max: self.active_binding_max.take(),
            collector_batches: self.collector_batches.take(),
            collector_empty_batches: self.collector_empty_batches.take(),
            collector_observations: self.collector_observations.take(),
            collector_payload_segments: self.collector_payload_segments.take(),
            tls_sync_segments: self.tls_sync_segments.take(),
            seccomp_tls_segments: self.seccomp_tls_segments.take(),
            seccomp_socket_segments: self.seccomp_socket_segments.take(),
            projected_input_events: self.projected_input_events.take(),
            retained_events: self.retained_events.take(),
            semantic_actions: self.semantic_actions.take(),
            semantic_links: self.semantic_links.take(),
            storage_batches: self.storage_batches.take(),
            storage_events: self.storage_events.take(),
            storage_payload_segments: self.storage_payload_segments.take(),
            storage_diagnostics: self.storage_diagnostics.take(),
            storage_semantic_actions: self.storage_semantic_actions.take(),
            storage_semantic_links: self.storage_semantic_links.take(),
            storage_trace_states: self.storage_trace_states.take(),
            storage_errors: self.storage_errors.take(),
            storage_elapsed_max_us: self.storage_elapsed_max_us.take(),
            payload_retention_checks: self.payload_retention_checks.take(),
            payload_retention_check_max_us: self.payload_retention_check_max_us.take(),
            payload_semantic_observes: self.payload_semantic_observes.take(),
            payload_semantic_observe_max_us: self.payload_semantic_observe_max_us.take(),
            payload_segment_persists: self.payload_segment_persists.take(),
            payload_segment_persist_max_us: self.payload_segment_persist_max_us.take(),
            payload_application_analyzes: self.payload_application_analyzes.take(),
            payload_application_analyze_outputs: self.payload_application_analyze_outputs.take(),
            payload_application_analyze_max_us: self.payload_application_analyze_max_us.take(),
            payload_application_persists: self.payload_application_persists.take(),
            payload_application_persist_max_us: self.payload_application_persist_max_us.take(),
        }
    }
}

/// The log line of a snapshot: `name=value` for each counter, in order,
/// separated by single spaces.
pub open spec fn snapshot_text(s: WorkloadSnapshot) -> Seq<char> {
    "ready_cycles="@ + decimal(s.ready_cycles as nat)
        + " listener_ready="@ + decimal(s.listener_ready as nat)
        + " control_ready="@ + decimal(s.control_ready as nat)
        + " event_source_ready="@ + decimal(s.event_source_ready as nat)
        + " background_ready="@ + decimal(s.background_ready as nat)
        + " event_fds_sampled="@ + decimal(s.event_fds_sampled as nat)
        + " event_fds_max="@ + decimal(s.event_fds_max as nat)
        + " drain_calls="@ + decimal(s.drain_calls as nat)
        + " drain_active_path="@ + decimal(s.drain_active_path as nat)
        + " drain_idle_path="@ + decimal(s.drain_idle_path as nat)
        + " drain_errors="@ + decimal(s.drain_errors as nat)
        + " drain_elapsed_max_us="@ + decimal(s.drain_elapsed_max_us as nat)
        + " active_binding_samples="@ + decimal(s.active_binding_samples as nat)
        + " active_binding_max="@ + decimal(s.active_binding_max as nat)
        + " collector_batches="@ + decimal(s.collector_batches as nat)
        + " collector_empty_batches="@ + decimal(s.collector_empty_batches as nat)
        + " collector_observations="@ + decimal(s.collector_observations as nat)
        + " collector_payload_segments="@ + decimal(s.collector_payload_segments as nat)
        + " tls_sync_segments="@ + decimal(s.tls_sync_segments as nat)
        + " seccomp_tls_segments="@ + decimal(s.seccomp_tls_segments as nat)
        + " seccomp_socket_segments="@ + decimal(s.seccomp_socket_segments as nat)
        + " projected_input_events="@ + decimal(s.projected_input_events as nat)
        + " retained_events="@ + decimal(s.retained_events as nat)
        + " semantic_actions="@ + decimal(s.semantic_actions as nat)
        + " semantic_links="@ + decimal(s.semantic_links as nat)
        + " storage_batches="@ + decimal(s.storage_batches as nat)
        + " storage_events="@ + decimal(s.storage_events as nat)
        + " storage_payload_segments="@ + decimal(s.storage_payload_segments as nat)
        + " storage_diagnostics="@ + decimal(s.storage_diagnostics as nat)
        + " storage_semantic_actions="@ + decimal(s.storage_semantic_actions as nat)
        + " storage_semantic_links="@ + decimal(s.storage_semantic_links as nat)
        + " storage_trace_states="@ + decimal(s.storage_trace_states as nat)
        + " storage_errors="@ + decimal(s.storage_errors as nat)
        + " storage_elapsed_max_us="@ + decimal(s.storage_elapsed_max_us as nat)
        + " payload_retention_checks="@ + decimal(s.payload_retention_checks as nat)
        + " payload_retention_check_max_us="@ + decimal(s.payload_retention_check_max_us as nat)
        + " payload_semantic_observes="@ + decimal(s.payload_semantic_observes as nat)
        + " payload_semantic_observe_max_us="@ + decimal(s.payload_semantic_observe_max_us as nat)
        + " payload_segment_persists="@ + decimal(s.payload_segment_persists as nat)
        + " payload_segment_persist_max_us="@ + decimal(s.payload_segment_persist_max_us as nat)
        + " payload_application_analyzes="@ + decimal(s.payload_application_analyzes as nat)
        + " payload_application_analyze_outputs="@ + decimal(s.payload_application_analyze_outputs as nat)
        + " payload_application_analyze_max_us="@ + decimal(s.payload_application_analyze_max_us as nat)
        + " payload_application_persists="@ + decimal(s.payload_application_persists as nat)
        + " payload_application_persist_max_us="@ + decimal(s.payload_application_persist_max_us as nat)
}

impl WorkloadSnapshot {
    /// The log line of this snapshot.
    pub fn format(&self) -> (r: String)
        ensures
            r@ == snapshot_text(*self),
    {
        let mut out = String::from_str("ready_cycles=");
        push_decimal(&mut out, self.ready_cycles);
        out.append(" listener_ready=");
        push_decimal(&mut out, self.listener_ready);
        out.append(" control_ready=");
        push_decimal(&mut out, self.control_ready);
        out.append(" event_source_ready=");
        push_decimal(&mut out, self.event_source_ready);
        out.append(" background_ready=");
        push_decimal(&mut out, self.background_ready);
        out.append(" event_fds_sampled=");
        push_decimal(&mut out, self.event_fds_sampled);
        out.append(" event_fds_max=");
        push_decimal(&mut out, self.event_fds_max);
        out.append(" drain_calls=");
        push_decimal(&mut out, self.drain_calls);
        out.append(" drain_active_path=");
        push_decimal(&mut out, self.drain_active_path);
        out.append(" drain_idle_path=");
        push_decimal(&mut out, self.drain_idle_path);
        out.append(" drain_errors=");
        push_decimal(&mut out, self.drain_errors);
        out.append(" drain_elapsed_max_us=");
        push_decimal(&mut out, self.drain_elapsed_max_us);
        out.append(" active_binding_samples=");
        push_decimal(&mut out, self.active_binding_samples);
        out.append(" active_binding_max=");
        push_decimal(&mut out, self.active_binding_max);
        out.append(" collector_batches=");
        push_decimal(&mut out, self.collector_batches);
        out.append(" collector_empty_batches=");
        push_decimal(&mut out, self.collector_empty_batches);
        out.append(" collector_observations=");
        push_decimal(&mut out, self.collector_observations);
        out.append(" collector_payload_segments=");
        push_decimal(&mut out, self.collector_payload_segments);
        out.append(" tls_sync_segments=");
        push_decimal(&mut out, self.tls_sync_segments);
        out.append(" seccomp_tls_segments=");
        push_decimal(&mut out, self.seccomp_tls_segments);
        out.append(" seccomp_socket_segments=");
        push_decimal(&mut out, self.seccomp_socket_segments);
        out.append(" projected_input_events=");
        push_decimal(&mut out, self.projected_input_events);
        out.append(" retained_events=");
        push_decimal(&mut out, self.retained_events);
        out.append(" semantic_actions=");
        push_decimal(&mut out, self.semantic_actions);
        out.append(" semantic_links=");
        push_decimal(&mut out, self.semantic_links);
        out.append(" storage_batches=");
        push_decimal(&mut out, self.storage_batches);
        out.append(" storage_events=");
        push_decimal(&mut out, self.storage_events);
        out.append(" storage_payload_segments=");
        push_decimal(&mut out, self.storage_payload_segments);
        out.append(" storage_diagnostics=");
        push_decimal(&mut out, self.storage_diagnostics);
        out.append(" storage_semantic_actions=");
        push_decimal(&mut out, self.storage_semantic_actions);
        out.append(" storage_semantic_links=");
        push_decimal(&mut out, self.storage_semantic_links);
        out.append(" storage_trace_states=");
        push_decimal(&mut out, self.storage_trace_states);
        out.append(" storage_errors=");
        push_decimal(&mut out, self.storage_errors);
        out.append(" storage_elapsed_max_us=");
        push_decimal(&mut out, self.storage_elapsed_max_us);
        out.append(" payload_retention_checks=");
        push_decimal(&mut out, self.payload_retention_checks);
        out.append(" payload_retention_check_max_us=");
        push_decimal(&mut out, self.payload_retention_check_max_us);
        out.append(" payload_semantic_observes=");
        push_decimal(&mut out, self.payload_semantic_observes);
        out.append(" payload_semantic_observe_max_us=");
        push_decimal(&mut out, self.payload_semantic_observe_max_us);
        out.append(" payload_segment_persists=");
        push_decimal(&mut out, self.payload_segment_persists);
        out.append(" payload_segment_persist_max_us=");
        push_decimal(&mut out, self.payload_segment_persist_max_us);
        out.append(" payload_application_analyzes=");
        push_decimal(&mut out, self.payload_application_analyzes);
        out.append(" payload_application_analyze_outputs=");
        push_decimal(&mut out, self.payload_application_analyze_outputs);
        out.append(" payload_application_analyze_max_us=");
        push_decimal(&mut out, self.payload_application_analyze_max_us);
        out.append(" payload_application_persists=");
        push_decimal(&mut out, self.payload_application_persists);
        out.append(" payload_application_persist_max_us=");
        push_decimal(&mut out, self.payload_application_persist_max_us);
        out
    }
}

/// Microseconds in a duration of `duration` nanoseconds, saturating at `u64::MAX`.
pub open spec fn micros(duration: u128) -> u64 {
    if duration / 1000 > u64::MAX {
        u64::MAX
    } else {
        (duration / 1000) as u64
    }
}

pub fn duration_micros(duration: u128) -> (r: u64)
    ensures
        r == micros(duration),
{
    let us = duration / 1000;
    if us > u64::MAX as u128 {
        u64::MAX
    } else {
        us as u64
    }
}

/// Microseconds from `started_at` to `now` (nanosecond clock readings; none
/// when the clock reads earlier), saturating at `u64::MAX`.
pub fn elapsed_us(started_at: u128, now: u128) -> (r: u64)
    ensures
        r == micros(if now >= started_at { (now - started_at) as u128 } else { 0 }),
{
    let elapsed = if now >= started_at { now - started_at } else { 0 };
    duration_micros(elapsed)
}

/// Which payload path produced the segments counted.
#[derive(Clone, Copy, Debug, PartialEq, Eq, Structural)]
pub enum PayloadSegmentStage {
    TlsSync,
    SeccompTls,
    SeccompSocket,
}

/// A timed phase of a payload transaction.
#[derive(Clone, Copy, Debug, PartialEq, Eq, Structural)]
pub enum PayloadTransactionPhase {
    RetentionCheck,
    SemanticObserve,
    SegmentPersist,
    ApplicationAnalyze,
    ApplicationPersist,
}

/// Workload diagnostics, present only when enabled: when disabled every
/// record is a no-op.
pub struct WorkloadDiagnostics {
    pub counters: Option<WorkloadCounters>,
}

impl View for WorkloadDiagnostics {
    type V = Option<WorkloadSnapshot>;

    open spec fn view(&self) -> Option<WorkloadSnapshot> {
        match self.counters {
            Some(c) => Some(c@),
            None => None,
        }
    }
}

pub open spec fn map_snapshot(d: Option<WorkloadSnapshot>, f: spec_fn(WorkloadSnapshot) -> WorkloadSnapshot) -> Option<WorkloadSnapshot> {
    match d {
        Some(s) => Some(f(s)),
        None => None,
    }
}

pub open spec fn after_ready_cycle(s: WorkloadSnapshot, listener_ready: bool, control_ready_count: usize, event_source_ready: bool, background_ready: bool, event_fd_count: usize) -> WorkloadSnapshot {
    WorkloadSnapshot {
        ready_cycles: wrap_add(s.ready_cycles, 1),
        control_ready: wrap_add(s.control_ready, control_ready_count as u64),
        event_fds_sampled: wrap_add(s.event_fds_sampled, event_fd_count as u64),
        event_fds_max: max_u64(s.event_fds_max, event_fd_count as u64),
        listener_ready: if listener_ready { wrap_add(s.listener_ready, 1) } else { s.listener_ready },
        event_source_ready: if event_source_ready { wrap_add(s.event_source_ready, 1) } else { s.event_source_ready },
        background_ready: if background_ready { wrap_add(s.background_ready, 1) } else { s.background_ready },
        ..s
    }
}

pub open spec fn after_drain_call(s: WorkloadSnapshot, active_bindings: usize, active_path: bool) -> WorkloadSnapshot {
    WorkloadSnapshot {
        drain_calls: wrap_add(s.drain_calls, 1),
        active_binding_samples: wrap_add(s.active_binding_samples, active_bindings as u64),
        active_binding_max: max_u64(s.active_binding_max, active_bindings as u64),
        drain_active_path: if active_path { wrap_add(s.drain_active_path, 1) } else { s.drain_active_path },
        drain_idle_path: if active_path { s.drain_idle_path } else { wrap_add(s.drain_idle_path, 1) },
        ..s
    }
}

pub open spec fn after_drain_result(s: WorkloadSnapshot, elapsed: u128, ok: bool) -> WorkloadSnapshot {
    WorkloadSnapshot {
        drain_elapsed_max_us: max_u64(s.drain_elapsed_max_us, micros(elapsed)),
        drain_errors: if ok { s.drain_errors } else { wrap_add(s.drain_errors, 1) },
        ..s
    }
}

pub open spec fn after_collector_batch(s: WorkloadSnapshot, observations: usize, payload_segments: usize) -> WorkloadSnapshot {
    WorkloadSnapshot {
        collector_batches: wrap_add(s.collector_batches, 1),
        collector_observations: wrap_add(s.collector_observations, observations as u64),
        collector_payload_segments: wrap_add(s.collector_payload_segments, payload_segments as u64),
        collector_empty_batches: if observations == 0 && payload_segments == 0 {
            wrap_add(s.collector_empty_batches, 1)
        } else {
            s.collector_empty_batches
        },
        ..s
    }
}

pub open spec fn after_payload_segments(s: WorkloadSnapshot, stage: PayloadSegmentStage, count: usize) -> WorkloadSnapshot {
    match stage {
        PayloadSegmentStage::TlsSync => WorkloadSnapshot { tls_sync_segments: wrap_add(s.tls_sync_segments, count as u64), ..s },
        PayloadSegmentStage::SeccompTls => WorkloadSnapshot { seccomp_tls_segments: wrap_add(s.seccomp_tls_segments, count as u64), ..s },
        PayloadSegmentStage::SeccompSocket => WorkloadSnapshot { seccomp_socket_segments: wrap_add(s.seccomp_socket_segments, count as u64), ..s },
    }
}

pub open spec fn after_event_projection(s: WorkloadSnapshot, input_events: usize, retained_events: usize, semantic_actions: usize, semantic_links: usize) -> WorkloadSnapshot {
    WorkloadSnapshot {
        projected_input_events: wrap_add(s.projected_input_events, input_events as u64),
        retained_events: wrap_add(s.retained_events, retained_events as u64),
        semantic_actions: wrap_add(s.semantic_actions, semantic_actions as u64),
        semantic_links: wrap_add(s.semantic_links, semantic_links as u64),
        ..s
    }
}

pub open spec fn after_storage_batch(s: WorkloadSnapshot, elapsed: u128, events: usize, payload_segments: usize, diagnostics: usize, semantic_actions: usize, semantic_links: usize, trace_states: usize, ok: bool) -> WorkloadSnapshot {
    WorkloadSnapshot {
        storage_batches: wrap_add(s.storage_batches, 1),
        storage_events: wrap_add(s.storage_events, events as u64),
        storage_payload_segments: wrap_add(s.storage_payload_segments, payload_segments as u64),
        storage_diagnostics: wrap_add(s.storage_diagnostics, diagnostics as u64),
        storage_semantic_actions: wrap_add(s.storage_semantic_actions, semantic_actions as u64),
        storage_semantic_links: wrap_add(s.storage_semantic_links, semantic_links as u64),
        storage_trace_states: wrap_add(s.storage_trace_states, trace_states as u64),
        storage_elapsed_max_us: max_u64(s.storage_elapsed_max_us, micros(elapsed)),
        storage_errors: if ok { s.storage_errors } else { wrap_add(s.storage_errors, 1) },
        ..s
    }
}

pub open spec fn after_transaction_phase(s: WorkloadSnapshot, phase: PayloadTransactionPhase, elapsed: u128, output_items: usize) -> WorkloadSnapshot {
    match phase {
        PayloadTransactionPhase::RetentionCheck => WorkloadSnapshot {
            payload_retention_checks: wrap_add(s.payload_retention_checks, 1),
            payload_retention_check_max_us: max_u64(s.payload_retention_check_max_us, micros(elapsed)),
            ..s
        },
        PayloadTransactionPhase::SemanticObserve => WorkloadSnapshot {
            payload_semantic_observes: wrap_add(s.payload_semantic_observes, 1),
            payload_semantic_observe_max_us: max_u64(s.payload_semantic_observe_max_us, micros(elapsed)),
            ..s
        },
        PayloadTransactionPhase::SegmentPersist => WorkloadSnapshot {
            payload_segment_persists: wrap_add(s.payload_segment_persists, 1),
            payload_segment_persist_max_us: max_u64(s.payload_segment_persist_max_us, micros(elapsed)),
            ..s
        },
        PayloadTransactionPhase::ApplicationAnalyze => WorkloadSnapshot {
            payload_application_analyzes: wrap_add(s.payload_application_analyzes, 1),
            payload_application_analyze_outputs: wrap_add(s.payload_application_analyze_outputs, output_items as u64),
            payload_application_analyze_max_us: max_u64(s.payload_application_analyze_max_us, micros(elapsed)),
            ..s
        },
        PayloadTransactionPhase::ApplicationPersist => WorkloadSnapshot {
            payload_application_persists: wrap_add(s.payload_application_persists, output_items as u64),
            payload_application_persist_max_us: max_u64(s.payload_application_persist_max_us, micros(elapsed)),
            ..s
        },
    }
}

impl WorkloadDiagnostics {
    /// Diagnostics that count when `enabled`, with every counter at zero.
    pub fn new(enabled: bool) -> (r: Self)
        ensures
            r@ == if enabled { Some(zero_snapshot()) } else { None::<WorkloadSnapshot> },
    {
        if enabled {
            WorkloadDiagnostics { counters: Some(WorkloadCounters::new()) }
        } else {
            WorkloadDiagnostics { counters: None }
        }
    }

    pub fn record_ready_cycle(
        &mut self,
        listener_ready: bool,
        control_ready_count: usize,
        event_source_ready: bool,
        background_ready: bool,
        event_fd_count: usize,
    )
        ensures
            final(self)@ == map_snapshot(old(self)@, |s: WorkloadSnapshot| after_ready_cycle(s, listener_ready, control_ready_count, event_source_ready, background_ready, event_fd_count)),
    {
        match &mut self.counters {
            None => {},
            Some(c) => {
                c.ready_cycles.add(1);
                c.control_ready.add(control_ready_count as u64);
                c.event_fds_sampled.add(event_fd_count as u64);
                c.event_fds_max.max(event_fd_count as u64);
                if listener_ready {
                    c.listener_ready.add(1);
                }
                if event_source_ready {
                    c.event_source_ready.add(1);
                }
                if background_ready {
                    c.background_ready.add(1);
                }
            },
        }
    }

    pub fn record_drain_call(&mut self, active_bindings: usize, active_path: bool)
        ensures
            final(self)@ == map_snapshot(old(self)@, |s: WorkloadSnapshot| after_drain_call(s, active_bindings, active_path)),
    {
        match &mut self.counters {
            None => {},
            Some(c) => {
                c.drain_calls.add(1);
                c.active_binding_samples.add(active_bindings as u64);
                c.active_binding_max.max(active_bindings as u64);
                if active_path {
                    c.drain_active_path.add(1);
                } else {
                    c.drain_idle_path.add(1);
                }
            },
        }
    }

    pub fn record_drain_result(&mut self, elapsed: u128, ok: bool)
        ensures
            final(self)@ == map_snapshot(old(self)@, |s: WorkloadSnapshot| after_drain_result(s, elapsed, ok)),
    {
        match &mut self.counters {
            None => {},
            Some(c) => {
                c.drain_elapsed_max_us.max(duration_micros(elapsed));
                if !ok {
                    c.drain_errors.add(1);
                }
            },
        }
    }

    pub fn record_collector_batch(&mut self, observations: usize, payload_segments: usize)
        ensures
            final(self)@ == map_snapshot(old(self)@, |s: WorkloadSnapshot| after_collector_batch(s, observations, payload_segments)),
    {
        match &mut self.counters {
            None => {},
            Some(c) => {
                c.collector_batches.add(1);
                c.collector_observations.add(observations as u64);
                c.collector_payload_segments.add(payload_segments as u64);
                if observations == 0 && payload_segments == 0 {
                    c.collector_empty_batches.add(1);
                }
            },
        }
    }

    pub fn record_payload_segments(&mut self, stage: PayloadSegmentStage, count: usize)
        ensures
            final(self)@ == map_snapshot(old(self)@, |s: WorkloadSnapshot| after_payload_segments(s, stage, count)),
    {
        match &mut self.counters {
            None => {},
            Some(c) => {
                match stage {
                    PayloadSegmentStage::TlsSync => c.tls_sync_segments.add(count as u64),
                    PayloadSegmentStage::SeccompTls => c.seccomp_tls_segments.add(count as u64),
                    PayloadSegmentStage::SeccompSocket => c.seccomp_socket_segments.add(count as u64),
                }
            },
        }
    }

    pub fn record_event_projection(
        &mut self,
        input_events: usize,
        retained_events: usize,
        semantic_actions: usize,
        semantic_links: usize,
    )
        ensures
            final(self)@ == map_snapshot(old(self)@, |s: WorkloadSnapshot| after_event_projection(s, input_events, retained_events, semantic_actions, semantic_links)),
    {
        match &mut self.counters {
            None => {},
            Some(c) => {
                c.projected_input_events.add(input_events as u64);
                c.retained_events.add(retained_events as u64);
                c.semantic_actions.add(semantic_actions as u64);
                c.semantic_links.add(semantic_links as u64);
            },
        }
    }

    pub fn record_storage_batch(
        &mut self,
        elapsed: u128,
        events: usize,
        payload_segments: usize,
        diagnostics: usize,
        semantic_actions: usize,
        semantic_links: usize,
        trace_states: usize,
        ok: bool,
    )
        ensures
            final(self)@ == map_snapshot(old(self)@, |s: WorkloadSnapshot| after_storage_batch(s, elapsed, events, payload_segments, diagnostics, semantic_actions, semantic_links, trace_states, ok)),
    {
        match &mut self.counters {
            None => {},
            Some(c) => {
                c.storage_batches.add(1);
                c.storage_events.add(events as u64);
                c.storage_payload_segments.add(payload_segments as u64);
                c.storage_diagnostics.add(diagnostics as u64);
                c.storage_semantic_actions.add(semantic_actions as u64);
                c.storage_semantic_links.add(semantic_links as u64);
                c.storage_trace_states.add(trace_states as u64);
                c.storage_elapsed_max_us.max(duration_micros(elapsed));
                if !ok {
                    c.storage_errors.add(1);
                }
            },
        }
    }

    pub fn record_payload_transaction_phase(&mut self, phase: PayloadTransactionPhase, elapsed: u128, output_items: usize)
        ensures
            final(self)@ == map_snapshot(old(self)@, |s: WorkloadSnapshot| after_transaction_phase(s, phase, elapsed, output_items)),
    {
        match &mut self.counters {
            None => {},
            Some(c) => {
                match phase {
                    PayloadTransactionPhase::RetentionCheck => {
                        c.payload_retention_checks.add(1);
                        c.payload_retention_check_max_us.max(duration_micros(elapsed));
                    },
                    PayloadTransactionPhase::SemanticObserve => {
                        c.payload_semantic_observes.add(1);
                        c.payload_semantic_observe_max_us.max(duration_micros(elapsed));
                    },
                    PayloadTransactionPhase::SegmentPersist => {
                        c.payload_segment_persists.add(1);
                        c.payload_segment_persist_max_us.max(duration_micros(elapsed));
                    },
                    PayloadTransactionPhase::ApplicationAnalyze => {
                        c.payload_application_analyzes.add(1);
                        c.payload_application_analyze_outputs.add(output_items as u64);
                        c.payload_application_analyze_max_us.max(duration_micros(elapsed));
                    },
                    PayloadTransactionPhase::ApplicationPersist => {
                        c.payload_application_persists.add(output_items as u64);
                        c.payload_application_persist_max_us.max(duration_micros(elapsed));
                    },
                }
            },
        }
    }

    /// The counters' values, reset to zero; nothing when disabled.
    pub fn snapshot_and_reset(&mut self) -> (r: Option<WorkloadSnapshot>)
        ensures
            r == old(self)@,
            final(self)@ == map_snapshot(old(self)@, |s: WorkloadSnapshot| zero_snapshot()),
    {
        match &mut self.counters {
            None => None,
            Some(c) => Some(c.snapshot_and_reset()),
        }
    }
}

/// The snapshot after `calls` drain calls, each `(active bindings, active
/// path)`, in order, starting from `s`.
pub open spec fn after_drain_calls(s: WorkloadSnapshot, calls: Seq<(usize, bool)>) -> WorkloadSnapshot
    decreases calls.len(),
{
    if calls.len() == 0 {
        s
    } else {
        let last = calls.last();
        after_drain_call(after_drain_calls(s, calls.drop_last()), last.0, last.1)
    }
}

/// How many of the calls took the active path.
pub open spec fn active_calls(calls: Seq<(usize, bool)>) -> nat
    decreases calls.len(),
{
    if calls.len() == 0 {
        0
    } else {
        active_calls(calls.drop_last()) + if calls.last().1 { 1nat } else { 0nat }
    }
}

/// The active bindings summed over the calls.
pub open spec fn binding_sum(calls: Seq<(usize, bool)>) -> nat
    decreases calls.len(),
{
    if calls.len() == 0 {
        0
    } else {
        binding_sum(calls.drop_last()) + calls.last().0 as nat
    }
}

/// The most active bindings any call saw (0 without calls).
pub open spec fn binding_max(calls: Seq<(usize, bool)>) -> nat
    decreases calls.len(),
{
    if calls.len() == 0 {
        0
    } else {
        let m = binding_max(calls.drop_last());
        if calls.last().0 >= m { calls.last().0 as nat } else { m }
    }
}

proof fn lemma_active_calls_bound(calls: Seq<(usize, bool)>)
    ensures
        active_calls(calls) <= calls.len(),
    decreases calls.len(),
{
    if calls.len() > 0 {
        lemma_active_calls_bound(calls.drop_last());
    }
}

/// Law: from counters at zero (fresh, or just reset by a snapshot), `n`
/// drain calls count `n` calls, split into those that took the active path
/// and those that took the idle one, so that the two add up to the calls;
/// the bindings sampled are the sum of the calls' bindings and the maximum
/// is the largest of them (counts that stay within 64 bits).
pub proof fn law_drain_calls_add_up(calls: Seq<(usize, bool)>)
    requires
        calls.len() <= u64::MAX,
        binding_sum(calls) <= u64::MAX,
    ensures
        ({
            let r = after_drain_calls(zero_snapshot(), calls);
            &&& r.drain_calls == calls.len()
            &&& r.drain_active_path == active_calls(calls)
            &&& r.drain_idle_path == calls.len() - active_calls(calls)
            &&& r.drain_active_path + r.drain_idle_path == r.drain_calls
            &&& r.active_binding_samples == binding_sum(calls)
            &&& r.active_binding_max == binding_max(calls)
        }),
    decreases calls.len(),
{
    lemma_active_calls_bound(calls);
    if calls.len() > 0 {
        let init = calls.drop_last();
        lemma_active_calls_bound(init);
        law_drain_calls_add_up(init);
    }
}

} // verus!
