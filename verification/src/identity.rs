//! Trace process identity: which trace a process belongs to, whether its
//! events may be captured, the identity a control actor is known by, and
//! the fields read from a process's metadata and `/proc/<pid>/stat` text.

use vstd::prelude::*;
use vstd::string::StringSliceAdditionalSpecFns;
use crate::rules::{int_error_str, int_error_text};
use crate::shutdown::ControlError;
use crate::strmap::StringMap;
use crate::text::{decimal, push_decimal, substring};
use crate::words::{digit_scan, parse_uint, parse_uint_bytes, split_whitespace_words, word_texts, IntErrorKind};

verus! {

broadcast use vstd::utf8::group_utf8_lib;

/// The states of a process's membership in a trace that the identity logic
/// tells apart; `Other` stands for every further state the trace runtime
/// keeps (such as one that has ended).
#[derive(Clone, Copy, Debug, PartialEq, Eq, Structural)]
pub enum MembershipState {
    Starting,
    Active,
    IdentityStale,
    Other,
}

/// What the trace runtime records of one process in one trace.
#[derive(Clone, Copy, Debug, PartialEq, Eq, Structural)]
pub struct ProcessMembership {
    pub identity: u64,
    pub capture_enabled: bool,
    pub propagation_enabled: bool,
    pub state: MembershipState,
}

/// A process matched to the trace it belongs to.
#[derive(Clone, Copy, Debug, PartialEq, Eq, Structural)]
pub struct ResolvedTraceProcess {
    pub trace_id: u64,
    pub process: u64,
    pub capture_enabled: bool,
    pub state: MembershipState,
}

/// An event's process matched to its trace, with the parent it was
/// inherited from when the event added it.
#[derive(Clone, Copy, Debug, PartialEq, Eq, Structural)]
pub struct IngestMatch {
    pub trace_id: u64,
    pub process: u64,
    pub parent: Option<u64>,
}

/// A seccomp notification's process, known to be capturable in its trace.
#[derive(Clone, Copy, Debug, PartialEq, Eq, Structural)]
pub struct SeccompIdentityPreparation {
    pub resolved: ResolvedTraceProcess,
}

pub open spec fn capturable(r: ResolvedTraceProcess) -> bool {
    r.capture_enabled && (r.state is Starting || r.state is Active)
}

impl ResolvedTraceProcess {
    /// Capture is on and the membership is starting or active.
    pub fn is_capturable(&self) -> (r: bool)
        ensures
            r == capturable(*self),
    {
        self.capture_enabled && matches!(self.state, MembershipState::Starting | MembershipState::Active)
    }

    /// The match as an ingest match, with no parent.
    pub fn into_ingest_match(self) -> (m: IngestMatch)
        ensures
            m == (IngestMatch { trace_id: self.trace_id, process: self.process, parent: None }),
    {
        IngestMatch { trace_id: self.trace_id, process: self.process, parent: None }
    }
}

/// The resolved process for a membership found in trace `trace_id`.
pub fn resolved_trace_process(trace_id: u64, membership: ProcessMembership) -> (r: ResolvedTraceProcess)
    ensures
        r == (ResolvedTraceProcess {
            trace_id,
            process: membership.identity,
            capture_enabled: membership.capture_enabled,
            state: membership.state,
        }),
{
    ResolvedTraceProcess {
        trace_id,
        process: membership.identity,
        capture_enabled: membership.capture_enabled,
        state: membership.state,
    }
}

/// The resolved process for whatever membership the runtime found for a
/// process, in any trace.
pub fn match_process(found: Option<(u64, ProcessMembership)>) -> (r: Option<ResolvedTraceProcess>)
    ensures
        match found {
            Some((t, m)) => r == Some(ResolvedTraceProcess {
                trace_id: t,
                process: m.identity,
                capture_enabled: m.capture_enabled,
                state: m.state,
            }),
            None => r is None,
        },
{
    match found {
        Some((t, m)) => Some(resolved_trace_process(t, m)),
        None => None,
    }
}

/// The resolved process for the membership the runtime found for a process
/// in trace `trace_id`.
pub fn match_process_in_trace(trace_id: u64, found: Option<ProcessMembership>) -> (r: Option<ResolvedTraceProcess>)
    ensures
        match found {
            Some(m) => r == Some(ResolvedTraceProcess {
                trace_id,
                process: m.identity,
                capture_enabled: m.capture_enabled,
                state: m.state,
            }),
            None => r is None,
        },
{
    match found {
        Some(m) => Some(resolved_trace_process(trace_id, m)),
        None => None,
    }
}

/// A control error whose message is `head`, then the decimal of `n`, then
/// `tail`.
fn numbered_error(code: &str, head: &str, n: u64, tail: &str) -> (e: ControlError)
    ensures
        e.code@ == code@,
        e.message@ == head@ + decimal(n as nat) + tail@,
{
    let mut m = String::from_str(head);
    push_decimal(&mut m, n);
    m.append(tail);
    ControlError { code: String::from_str(code), message: m }
}

/// The preparation for a resolved process, refused when it is not
/// capturable in its trace.
pub fn capturable_preparation(resolved: ResolvedTraceProcess) -> (r: Result<SeccompIdentityPreparation, ControlError>)
    ensures
        r is Ok <==> capturable(resolved),
        r matches Ok(p) ==> p.resolved == resolved,
        r matches Err(e) ==> e.code@ == "command_control_identity"@ && e.message@ == "process "@ + decimal(
            resolved.process as nat,
        ) + " is not capturable in trace "@ + decimal(resolved.trace_id as nat),
{
    if !resolved.is_capturable() {
        let mut e = numbered_error("command_control_identity", "process ", resolved.process, " is not capturable in trace ");
        push_decimal(&mut e.message, resolved.trace_id);
        return Err(e);
    }
    Ok(SeccompIdentityPreparation { resolved })
}

/// Whether a parent's membership lets it pass its trace on to a child:
/// capture and propagation are on and its identity is not stale.
pub open spec fn can_propagate(m: ProcessMembership) -> bool {
    m.capture_enabled && m.propagation_enabled && !(m.state is IdentityStale)
}

/// Checks that the parent `parent_pid` of a notifying process is in the
/// listener trace `trace_id` and may pass its membership on.
pub fn check_parent_membership(trace_id: u64, parent_pid: u32, membership: Option<ProcessMembership>) -> (r: Result<ProcessMembership, ControlError>)
    ensures
        match membership {
            None => r matches Err(e) && e.code@ == "command_control_parent_identity"@ && e.message@ == "parent pid "@
                + decimal(parent_pid as nat) + " is not part of listener trace "@ + decimal(trace_id as nat),
            Some(m) => if can_propagate(m) {
                r == Ok::<ProcessMembership, ControlError>(m)
            } else {
                r matches Err(e) && e.code@ == "command_control_parent_identity"@ && e.message@ == "parent pid "@
                    + decimal(parent_pid as nat) + " cannot propagate trace membership"@
            },
        },
{
    match membership {
        None => {
            let mut e = numbered_error("command_control_parent_identity", "parent pid ", parent_pid as u64, " is not part of listener trace ");
            push_decimal(&mut e.message, trace_id);
            Err(e)
        },
        Some(m) => {
            if !m.capture_enabled || !m.propagation_enabled || matches!(m.state, MembershipState::IdentityStale) {
                Err(numbered_error("command_control_parent_identity", "parent pid ", parent_pid as u64, " cannot propagate trace membership"))
            } else {
                Ok(m)
            }
        },
    }
}

/// The refusal of a notification that the listener trace `trace_id` got
/// for task `task_id` of process `process_pid`, which another trace owns.
pub fn foreign_process_error(trace_id: u64, task_id: u32, process_pid: u32, other_trace_id: u64) -> (e: ControlError)
    ensures
        e.code@ == "command_control_identity"@,
        e.message@ == "listener trace "@ + decimal(trace_id as nat) + " received task "@ + decimal(task_id as nat)
            + " from process "@ + decimal(process_pid as nat) + " owned by trace "@ + decimal(other_trace_id as nat),
{
    let mut e = numbered_error("command_control_identity", "listener trace ", trace_id, " received task ");
    push_decimal(&mut e.message, task_id as u64);
    e.message.append(" from process ");
    push_decimal(&mut e.message, process_pid as u64);
    e.message.append(" owned by trace ");
    push_decimal(&mut e.message, other_trace_id);
    e
}

/// Where a process runs on the host, as its identity record holds it.
#[derive(Clone, Copy, Debug, PartialEq, Eq, Structural)]
pub struct HostCoordinates {
    pub pid: u32,
    pub task_id: u32,
    pub start_time_ticks: u64,
    pub start_boottime_ns: Option<u64>,
}

/// What a process identity record holds that a control actor is known by:
/// its host coordinates and the pid namespaces it was seen in, in order.
#[derive(Debug)]
pub struct ProcessRecord {
    pub host: Option<HostCoordinates>,
    pub pid_namespaces: Vec<String>,
}

/// The identity of the process that sent a control request.
#[derive(Debug)]
pub struct ControlActorProcessIdentity {
    pub pid: u32,
    pub task_id: u32,
    pub generation: u64,
    pub namespace: Option<String>,
}

/// The identity that the process `process` acts under: its host pid and
/// task, its start time (the boot-time clock where known) as generation, and
/// its first pid namespace; refused when it has no record or no host.
pub fn resolve_control_actor(process: u64, record: Option<&ProcessRecord>) -> (r: Result<ControlActorProcessIdentity, ControlError>)
    ensures
        match record {
            None => r matches Err(e) && e.code@ == "control_process_identity"@ && e.message@ == "process record "@
                + decimal(process as nat) + " is missing"@,
            Some(rec) => match rec.host {
                None => r matches Err(e) && e.code@ == "control_process_identity"@ && e.message@ == "process "@
                    + decimal(process as nat) + " has no host coordinates"@,
                Some(h) => r matches Ok(id) && id.pid == h.pid && id.task_id == h.task_id && id.generation == (match h.start_boottime_ns {
                    Some(ns) => ns,
                    None => h.start_time_ticks,
                }) && (if rec.pid_namespaces@.len() == 0 {
                    id.namespace is None
                } else {
                    id.namespace matches Some(n) && n@ == rec.pid_namespaces@[0]@
                }),
            },
        },
{
    let rec = match record {
        None => {
            return Err(numbered_error("control_process_identity", "process record ", process, " is missing"));
        },
        Some(rec) => rec,
    };
    let host = match rec.host {
        None => {
            return Err(numbered_error("control_process_identity", "process ", process, " has no host coordinates"));
        },
        Some(h) => h,
    };
    let generation = match host.start_boottime_ns {
        Some(ns) => ns,
        None => host.start_time_ticks,
    };
    let namespace = if rec.pid_namespaces.len() == 0 {
        None
    } else {
        Some(rec.pid_namespaces[0].clone())
    };
    Ok(ControlActorProcessIdentity { pid: host.pid, task_id: host.task_id, generation, namespace })
}

/// Scans `s[start..]` as decimal digits onto 0, no larger than `max`.
fn scan_digits(s: &[u8], start: usize, max: u64) -> (r: Result<u64, IntErrorKind>)
    requires
        start <= s.len(),
    ensures
        match r {
            Ok(v) => digit_scan(s@, start as int, 0, max as int) == Ok::<int, IntErrorKind>(v as int),
            Err(e) => digit_scan(s@, start as int, 0, max as int) == Err::<int, IntErrorKind>(e),
        },
{
    let n = s.len();
    let mut k: usize = start;
    let mut acc: u64 = 0;
    while k < n
        invariant
            n == s.len(),
            start <= k <= n,
            acc <= max,
            digit_scan(s@, k as int, acc as int, max as int) == digit_scan(s@, start as int, 0, max as int),
        decreases n - k,
    {
        let b = s[k];
        if !(48 <= b && b <= 57) {
            return Err(IntErrorKind::InvalidDigit);
        }
        let digit = (b - 48) as u64;
        if digit > max || acc > (max - digit) / 10 {
            if digit <= max {
                assert(acc * 10 + digit > max) by (nonlinear_arith)
                    requires
                        acc > (max - digit) / 10,
                        digit <= max,
                ;
            }
            return Err(IntErrorKind::PosOverflow);
        }
        assert(acc * 10 + digit <= max) by (nonlinear_arith)
            requires
                acc <= (max - digit) / 10,
                digit <= 9,
        ;
        acc = acc * 10 + digit;
        k += 1;
    }
    Ok(acc)
}

/// The text `core::num::ParseIntError` displays when a negative number is
/// below the target type's range.
pub open spec fn neg_overflow_text() -> Seq<char> {
    "number too small to fit in target type"@
}

/// What reading the text `s` as an `i32` gives, as `i32::from_str` does:
/// an optional sign, then decimal digits, scanned left to right until the
/// first byte that is no digit or takes the value out of range; the error is
/// the message `ParseIntError` displays.
pub open spec fn parse_i32(s: Seq<u8>) -> Result<int, Seq<char>> {
    if s.len() >= 2 && s[0] == 45 {
        match digit_scan(s, 1, 0, 0x8000_0000) {
            Ok(v) => Ok(-v),
            Err(IntErrorKind::PosOverflow) => Err(neg_overflow_text()),
            Err(k) => Err(int_error_text(k)),
        }
    } else {
        match parse_uint(s, 0x7fff_ffff) {
            Ok(v) => Ok(v),
            Err(k) => Err(int_error_text(k)),
        }
    }
}

/// Reads the text `s` as an `i32`.
pub fn parse_i32_bytes(s: &[u8]) -> (r: Result<i32, &'static str>)
    ensures
        match r {
            Ok(v) => parse_i32(s@) == Ok::<int, Seq<char>>(v as int),
            Err(t) => parse_i32(s@) == Err::<int, Seq<char>>(t@),
        },
{
    if s.len() >= 2 && s[0] == 45 {
        match scan_digits(s, 1, 0x8000_0000) {
            Ok(v) => {
                proof {
                    crate::words::lemma_digit_scan_bounded(s@, 1, 0, 0x8000_0000);
                }
                if v == 0x8000_0000 {
                    Ok(i32::MIN)
                } else {
                    Ok(-(v as i32))
                }
            },
            Err(IntErrorKind::PosOverflow) => Err("number too small to fit in target type"),
            Err(k) => Err(int_error_str(k)),
        }
    } else {
        match parse_uint_bytes(s, 0x7fff_ffff) {
            Ok(v) => Ok(v as i32),
            Err(k) => Err(int_error_str(k)),
        }
    }
}

/// The exit code an exit event's metadata gives: none without an
/// `exit_code` entry, else its value read as an `i32`, or the message of
/// the parse error.
pub open spec fn exit_code_spec(m: Map<Seq<char>, Seq<char>>) -> Result<Option<int>, Seq<char>> {
    if m.contains_key("exit_code"@) {
        match parse_i32(vstd::utf8::encode_utf8(m["exit_code"@])) {
            Ok(v) => Ok(Some(v)),
            Err(t) => Err(t),
        }
    } else {
        Ok(None)
    }
}

/// Reads the exit code of an exit event from its metadata.
pub fn exit_code(metadata: &StringMap) -> (r: Result<Option<i32>, ControlError>)
    requires
        metadata.wf(),
    ensures
        match r {
            Ok(Some(v)) => exit_code_spec(metadata@) == Ok::<Option<int>, Seq<char>>(Some(v as int)),
            Ok(None) => exit_code_spec(metadata@) == Ok::<Option<int>, Seq<char>>(None),
            Err(e) => e.code@ == "exit_code"@ && exit_code_spec(metadata@) == Err::<Option<int>, Seq<char>>(e.message@),
        },
{
    match metadata.get("exit_code") {
        None => Ok(None),
        Some(v) => match parse_i32_bytes(v.as_str().as_bytes()) {
            Ok(c) => Ok(Some(c)),
            Err(t) => Err(ControlError { code: String::from_str("exit_code"), message: String::from_str(t) }),
        },
    }
}

/// The parent pid an exec event's metadata names: its `ppid` entry read as
/// a `u32`, when present and well formed.
pub open spec fn metadata_parent_pid_spec(m: Map<Seq<char>, Seq<char>>) -> Option<int> {
    if m.contains_key("ppid"@) {
        match parse_uint(vstd::utf8::encode_utf8(m["ppid"@]), u32::MAX as int) {
            Ok(v) => Some(v),
            Err(_) => None,
        }
    } else {
        None
    }
}

/// Reads the parent pid named in an exec event's metadata.
pub fn metadata_parent_pid(metadata: &StringMap) -> (r: Option<u32>)
    requires
        metadata.wf(),
    ensures
        match r {
            Some(v) => metadata_parent_pid_spec(metadata@) == Some(v as int),
            None => metadata_parent_pid_spec(metadata@) is None,
        },
{
    match metadata.get("ppid") {
        None => None,
        Some(v) => match parse_uint_bytes(v.as_str().as_bytes(), u32::MAX as u64) {
            Ok(p) => Some(p as u32),
            Err(_) => None,
        },
    }
}

/// The kinds of collector event that change trace membership.
#[derive(Clone, Copy, Debug, PartialEq, Eq, Structural)]
pub enum ProcessEventKind {
    Fork,
    Exec,
    Exit,
    Other,
}

/// The kind of an event, from the operation of its process payload (none
/// for an event that carries no process payload).
pub fn classify_process_event(operation: Option<&str>) -> (k: ProcessEventKind)
    ensures
        match operation {
            Some(op) => k == (if op@ == "fork"@ {
                ProcessEventKind::Fork
            } else if op@ == "exec"@ || op@ == "command_control"@ {
                ProcessEventKind::Exec
            } else if op@ == "exit"@ {
                ProcessEventKind::Exit
            } else {
                ProcessEventKind::Other
            }),
            None => k == ProcessEventKind::Other,
        },
{
    match operation {
        None => ProcessEventKind::Other,
        Some(op) => {
            if crate::payload::str_eq(op, "fork") {
                ProcessEventKind::Fork
            } else if crate::payload::str_eq(op, "exec") || crate::payload::str_eq(op, "command_control") {
                ProcessEventKind::Exec
            } else if crate::payload::str_eq(op, "exit") {
                ProcessEventKind::Exit
            } else {
                ProcessEventKind::Other
            }
        },
    }
}

/// Why the trace runtime refused to add an observed child.
#[derive(Debug)]
pub enum InsertChildError {
    /// The parent's membership does not propagate to children.
    PropagationDisabled,
    /// Any other refusal, with the text the runtime gave for it.
    Refused(String),
}

/// What adding `child` under `parent` in trace `trace_id` gives, from the
/// runtime's answer: the child's match with its parent; nothing when the
/// parent does not propagate; the runtime's refusal otherwise.
pub fn insert_child_outcome(trace_id: u64, parent: u64, child: u64, answer: Result<(), InsertChildError>) -> (r: Result<Option<IngestMatch>, ControlError>)
    ensures
        match answer {
            Ok(()) => r == Ok::<Option<IngestMatch>, ControlError>(Some(IngestMatch { trace_id, process: child, parent: Some(parent) })),
            Err(InsertChildError::PropagationDisabled) => r == Ok::<Option<IngestMatch>, ControlError>(None),
            Err(InsertChildError::Refused(t)) => r matches Err(e) && e.code@ == "insert_observed_child"@ && e.message@ == t@,
        },
{
    match answer {
        Ok(()) => Ok(Some(IngestMatch { trace_id, process: child, parent: Some(parent) })),
        Err(InsertChildError::PropagationDisabled) => Ok(None),
        Err(InsertChildError::Refused(t)) => Err(ControlError { code: String::from_str("insert_observed_child"), message: t }),
    }
}

/// The position of the last byte `c` among the first `e` bytes of `b`, or
/// -1 when there is none.
pub open spec fn last_pos(b: Seq<u8>, c: u8, e: int) -> int
    decreases e,
{
    if e <= 0 {
        -1
    } else if b[e - 1] == c {
        e - 1
    } else {
        last_pos(b, c, e - 1)
    }
}

fn last_byte(b: &[u8], c: u8) -> (r: Option<usize>)
    ensures
        match r {
            Some(p) => p < b@.len() && p as int == last_pos(b@, c, b@.len() as int),
            None => last_pos(b@, c, b@.len() as int) == -1,
        },
{
    let mut e = b.len();
    while e > 0
        invariant
            e <= b@.len(),
            last_pos(b@, c, b@.len() as int) == last_pos(b@, c, e as int),
        decreases e,
    {
        if b[e - 1] == c {
            return Some(e - 1);
        }
        e -= 1;
    }
    None
}

/// The start time of a process in the text of its `/proc/<pid>/stat` file:
/// after the last `)` (which closes the command name) and one more
/// character, the 20th whitespace-separated word, read as a `u64`. None when
/// there is no such word; otherwise the parse result.
pub open spec fn stat_start_time_spec(b: Seq<u8>) -> Option<Result<int, IntErrorKind>> {
    let p = last_pos(b, 41, b.len() as int);
    if p < 0 || p + 2 > b.len() || !vstd::utf8::is_char_boundary(b, p + 2) {
        None
    } else {
        let t = word_texts(b.subrange(p + 2, b.len() as int));
        if t.len() <= 19 {
            None
        } else {
            Some(parse_uint(vstd::utf8::encode_utf8(t[19]), u64::MAX as int))
        }
    }
}

fn missing_start_time(pid: u32) -> (e: ControlError)
    ensures
        e.code@ == "command_control_identity"@,
        e.message@ == "missing start time for process "@ + decimal(pid as nat),
{
    let mut m = String::from_str("missing start time for process ");
    push_decimal(&mut m, pid as u64);
    ControlError { code: String::from_str("command_control_identity"), message: m }
}

/// Reads the start time of process `pid` from the text of its stat file.
pub fn stat_start_time(pid: u32, raw: &str) -> (r: Result<u64, ControlError>)
    ensures
        match stat_start_time_spec(raw.spec_bytes()) {
            None => r matches Err(e) && e.code@ == "command_control_identity"@ && e.message@ == "missing start time for process "@
                + decimal(pid as nat),
            Some(Err(k)) => r matches Err(e) && e.code@ == "command_control_identity"@ && e.message@ == "parse start time for process "@
                + decimal(pid as nat) + ": "@ + int_error_text(k),
            Some(Ok(v)) => r matches Ok(t) && t as int == v,
        },
{
    let b = raw.as_bytes();
    let n = b.len();
    proof {
        reveal_strlit("");
    }
    let p = match last_byte(b, 41) {
        None => {
            return Err(missing_start_time(pid));
        },
        Some(p) => p,
    };
    if n - p < 2 {
        return Err(missing_start_time(pid));
    }
    let k = p + 2;
    proof {
        let bb = raw.spec_bytes();
        assert(vstd::utf8::valid_utf8(bb));
        vstd::utf8::is_char_boundary_start_end_of_seq(bb);
        if k < n {
            vstd::utf8::is_char_boundary_iff_not_is_continuation_byte(bb, k as int);
        }
    }
    if k < n && b[k] >= 0x80 && b[k] <= 0xbf {
        return Err(missing_start_time(pid));
    }
    let rest = substring(raw, k, n);
    let parts = split_whitespace_words(rest.as_str());
    if parts.len() <= 19 {
        return Err(missing_start_time(pid));
    }
    match parse_uint_bytes(parts[19].as_str().as_bytes(), u64::MAX) {
        Ok(v) => Ok(v),
        Err(k) => {
            let mut e = numbered_error("command_control_identity", "parse start time for process ", pid as u64, ": ");
            e.message.append(int_error_str(k));
            Err(e)
        },
    }
}

/// The process found active under host pid `process_pid` whose start time
/// can confirm it, with that start time: its record's host must carry the
/// same pid and a known start time.
pub open spec fn confirmable(process_pid: u32, active: Option<u64>, host: Option<HostCoordinates>) -> Option<(u64, u64)> {
    match active {
        None => None,
        Some(p) => match host {
            None => None,
            Some(h) => if h.pid != process_pid || h.start_time_ticks == 0 {
                None
            } else {
                Some((p, h.start_time_ticks))
            },
        },
    }
}

/// The active process for `process_pid` that a stat read must confirm, with
/// the start time it must show.
pub fn active_process_to_confirm(process_pid: u32, active: Option<u64>, host: Option<HostCoordinates>) -> (r: Option<(u64, u64)>)
    ensures
        r == confirmable(process_pid, active, host),
{
    match active {
        None => None,
        Some(p) => match host {
            None => None,
            Some(h) => if h.pid != process_pid || h.start_time_ticks == 0 {
                None
            } else {
                Some((p, h.start_time_ticks))
            },
        },
    }
}

/// The refusal when the stat file of process `process_pid` could not be
/// read, with the read's error text.
pub fn stat_read_error(process_pid: u32, io: &str) -> (e: ControlError)
    ensures
        e.code@ == "command_control_identity"@,
        e.message@ == "cannot read stat for process "@ + decimal(process_pid as nat) + ": "@ + io@,
{
    let mut e = numbered_error("command_control_identity", "cannot read stat for process ", process_pid as u64, ": ");
    e.message.append(io);
    e
}

/// Confirms the active process `process` of host pid `process_pid` by the
/// text of its stat file: it is the process when the text shows the start
/// time `expected`, none when it shows another.
pub fn confirm_start_time(process: u64, process_pid: u32, expected: u64, text: &str) -> (r: Result<Option<u64>, ControlError>)
    ensures
        match stat_start_time_spec(text.spec_bytes()) {
            Some(Ok(t)) => r == Ok::<Option<u64>, ControlError>(if t == expected { Some(process) } else { None }),
            None => r matches Err(e) && e.code@ == "command_control_identity"@ && e.message@ == "missing start time for process "@
                + decimal(process_pid as nat),
            Some(Err(k)) => r matches Err(e) && e.code@ == "command_control_identity"@ && e.message@
                == "parse start time for process "@ + decimal(process_pid as nat) + ": "@ + int_error_text(k),
        },
{
    match stat_start_time(process_pid, text) {
        Err(failure) => Err(failure),
        Ok(t) => if t == expected {
            Ok(Some(process))
        } else {
            Ok(None)
        },
    }
}

} // verus!
