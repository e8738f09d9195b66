//! Reading a task's process and parent ids from the lines of its
//! `/proc/<task>/status` file (`Tgid:` and `PPid:`).

use vstd::prelude::*;
use vstd::string::StringSliceAdditionalSpecFns;
use crate::rules::{int_error_str, int_error_text};
use crate::shutdown::ControlError;
use crate::text::{decimal, push_decimal};
use crate::words::{lemma_skip_ws_bounds, lemma_trim_end_bounds, parse_uint, parse_uint_bytes, range_starts_with, skip_whitespace, trim_end_from, trimmed, IntErrorKind};

verus! {

broadcast use vstd::utf8::group_utf8_lib;

pub open spec fn line_bytes(lines: Seq<String>, i: int) -> Seq<u8> {
    vstd::utf8::encode_utf8(lines[i]@)
}

/// The line starts with `prefix`.
pub open spec fn has_prefix(line: Seq<u8>, prefix: Seq<u8>) -> bool {
    prefix.len() <= line.len() && line.subrange(0, prefix.len() as int) == prefix
}

/// The value after `prefix`, trimmed, read as a `u32`.
pub open spec fn field_u32(line: Seq<u8>, prefix: Seq<u8>) -> Result<int, IntErrorKind> {
    parse_uint(trimmed(line.subrange(prefix.len() as int, line.len() as int)), u32::MAX as int)
}

pub open spec fn tgid_prefix() -> Seq<u8> {
    seq![84u8, 103u8, 105u8, 100u8, 58u8]
}

pub open spec fn ppid_prefix() -> Seq<u8> {
    seq![80u8, 80u8, 105u8, 100u8, 58u8]
}

pub struct ErrorText {
    pub code: Seq<char>,
    pub message: Seq<char>,
}

/// The process and parent ids found from line `i` on (each the first of its
/// kind, the scan stopping once both are known), or the parse error met.
pub open spec fn status_scan(lines: Seq<String>, task_id: u32, i: int, tgid: Option<u32>, ppid: Option<u32>) -> Result<(Option<u32>, Option<u32>), ErrorText>
    decreases lines.len() - i,
{
    if i < 0 || i >= lines.len() || (tgid is Some && ppid is Some) {
        Ok((tgid, ppid))
    } else {
        let b = line_bytes(lines, i);
        if tgid is None && has_prefix(b, tgid_prefix()) {
            match field_u32(b, tgid_prefix()) {
                Err(k) => Err(ErrorText {
                    code: "command_control_identity"@,
                    message: "parse Tgid for task "@ + decimal(task_id as nat) + ": "@ + int_error_text(k),
                }),
                Ok(v) => status_scan(lines, task_id, i + 1, Some(v as u32), ppid),
            }
        } else if ppid is None && has_prefix(b, ppid_prefix()) {
            match field_u32(b, ppid_prefix()) {
                Err(k) => Err(ErrorText {
                    code: "command_control_parent_identity"@,
                    message: "parse PPid for task "@ + decimal(task_id as nat) + ": "@ + int_error_text(k),
                }),
                Ok(v) => status_scan(lines, task_id, i + 1, tgid, Some(v as u32)),
            }
        } else {
            status_scan(lines, task_id, i + 1, tgid, ppid)
        }
    }
}

/// A task's process id (its thread group) and its parent's.
#[derive(Clone, Copy, Debug, PartialEq, Eq, Structural)]
pub struct SeccompTaskStatus {
    pub process_pid: u32,
    pub parent_pid: u32,
}

/// What the status lines of task `task_id` give: both ids, or the error of
/// the first bad or missing one.
pub open spec fn task_status_spec(lines: Seq<String>, task_id: u32) -> Result<SeccompTaskStatus, ErrorText> {
    match status_scan(lines, task_id, 0, None, None) {
        Err(e) => Err(e),
        Ok((None, _)) => Err(ErrorText { code: "command_control_identity"@, message: "missing Tgid for task "@ + decimal(task_id as nat) }),
        Ok((Some(_), None)) => Err(ErrorText {
            code: "command_control_parent_identity"@,
            message: "missing PPid for task "@ + decimal(task_id as nat),
        }),
        Ok((Some(t), Some(p))) => Ok(SeccompTaskStatus { process_pid: t, parent_pid: p }),
    }
}

pub open spec fn error_text(e: ControlError) -> ErrorText {
    ErrorText { code: e.code@, message: e.message@ }
}

pub open spec fn status_outcome(r: Result<SeccompTaskStatus, ControlError>) -> Result<SeccompTaskStatus, ErrorText> {
    match r {
        Ok(s) => Ok(s),
        Err(e) => Err(error_text(e)),
    }
}

/// The trimmed value after the first `n` bytes of `line`, read as a `u32`.
fn value_u32(line: &str, n: usize) -> (r: Result<u32, IntErrorKind>)
    requires
        n <= line.spec_bytes().len(),
    ensures
        match r {
            Ok(v) => parse_uint(trimmed(line.spec_bytes().subrange(n as int, line.spec_bytes().len() as int)), u32::MAX as int)
                == Ok::<int, IntErrorKind>(v as int),
            Err(k) => parse_uint(trimmed(line.spec_bytes().subrange(n as int, line.spec_bytes().len() as int)), u32::MAX as int)
                == Err::<int, IntErrorKind>(k),
        },
{
    let b = line.as_bytes();
    let rest = vstd::slice::slice_subrange(b, n, b.len());
    let a = skip_whitespace(rest, 0);
    let e = trim_end_from(rest, a, rest.len());
    let t = vstd::slice::slice_subrange(rest, a, e);
    proof {
        assert(t@ =~= trimmed(rest@));
    }
    match parse_uint_bytes(t, u32::MAX as u64) {
        Ok(v) => Ok(v as u32),
        Err(k) => Err(k),
    }
}

fn task_error(code: &str, what: &str, task_id: u32, tail: &str) -> (e: ControlError)
    ensures
        e.code@ == code@,
        e.message@ == what@ + decimal(task_id as nat) + tail@,
{
    let mut m = String::from_str(what);
    push_decimal(&mut m, task_id as u64);
    m.append(tail);
    ControlError { code: String::from_str(code), message: m }
}

/// Reads the process and parent ids of task `task_id` from the lines of
/// its status file.
pub fn read_task_status(task_id: u32, lines: &[String]) -> (r: Result<SeccompTaskStatus, ControlError>)
    ensures
        status_outcome(r) == task_status_spec(lines@, task_id),
{
    let tg: [u8; 5] = [84, 103, 105, 100, 58];
    let pp: [u8; 5] = [80, 80, 105, 100, 58];
    assert(tg@ =~= tgid_prefix());
    assert(pp@ =~= ppid_prefix());
    let mut tgid: Option<u32> = None;
    let mut ppid: Option<u32> = None;
    let mut i: usize = 0;
    while i < lines.len()
        invariant
            i <= lines@.len(),
            tg@ == tgid_prefix(),
            pp@ == ppid_prefix(),
            status_scan(lines@, task_id, i as int, tgid, ppid) == status_scan(lines@, task_id, 0, None, None),
        ensures
            i <= lines@.len(),
            status_scan(lines@, task_id, i as int, tgid, ppid) == status_scan(lines@, task_id, 0, None, None),
            i >= lines@.len() || (tgid is Some && ppid is Some),
        decreases lines@.len() - i,
    {
        if tgid.is_some() && ppid.is_some() {
            break;
        }
        let line = lines[i].as_str();
        let b = line.as_bytes();
        assert(b@ == line_bytes(lines@, i as int));
        if tgid.is_none() && range_starts_with(b, 0, b.len(), tg.as_slice()) {
            assert(b@.subrange(0, b@.len() as int) =~= b@);
            match value_u32(line, 5) {
                Err(k) => {
                    let mut e = task_error("command_control_identity", "parse Tgid for task ", task_id, ": ");
                    e.message.append(int_error_str(k));
                    return Err(e);
                },
                Ok(v) => {
                    tgid = Some(v);
                },
            }
        } else if ppid.is_none() && range_starts_with(b, 0, b.len(), pp.as_slice()) {
            assert(b@.subrange(0, b@.len() as int) =~= b@);
            match value_u32(line, 5) {
                Err(k) => {
                    let mut e = task_error("command_control_parent_identity", "parse PPid for task ", task_id, ": ");
                    e.message.append(int_error_str(k));
                    return Err(e);
                },
                Ok(v) => {
                    ppid = Some(v);
                },
            }
        } else {
            assert(b@.subrange(0, b@.len() as int) =~= b@);
        }
        i += 1;
    }
    proof {
        reveal_strlit("");
    }
    match (tgid, ppid) {
        (None, _) => Err(task_error("command_control_identity", "missing Tgid for task ", task_id, "")),
        (Some(_), None) => Err(task_error("command_control_parent_identity", "missing PPid for task ", task_id, "")),
        (Some(t), Some(p)) => Ok(SeccompTaskStatus { process_pid: t, parent_pid: p }),
    }
}

/// The parent id in the lines of a process's status file: the first
/// `PPid:` line's value, or the error naming the bad or missing field.
pub open spec fn parent_pid_spec(lines: Seq<String>, pid: u32, i: int) -> Result<u32, ErrorText>
    decreases lines.len() - i,
{
    if i < 0 || i >= lines.len() {
        Err(ErrorText { code: "network_control_procfs"@, message: "missing PPid for pid "@ + decimal(pid as nat) })
    } else if has_prefix(line_bytes(lines, i), ppid_prefix()) {
        match field_u32(line_bytes(lines, i), ppid_prefix()) {
            Err(k) => Err(ErrorText { code: "network_control_procfs"@, message: "parse PPid: "@ + int_error_text(k) }),
            Ok(v) => Ok(v as u32),
        }
    } else {
        parent_pid_spec(lines, pid, i + 1)
    }
}

/// Reads the parent id of process `pid` from the lines of its status file.
pub fn parent_pid(pid: u32, lines: &[String]) -> (r: Result<u32, ControlError>)
    ensures
        match r {
            Ok(v) => parent_pid_spec(lines@, pid, 0) == Ok::<u32, ErrorText>(v),
            Err(e) => parent_pid_spec(lines@, pid, 0) == Err::<u32, ErrorText>(error_text(e)),
        },
{
    let pp: [u8; 5] = [80, 80, 105, 100, 58];
    assert(pp@ =~= ppid_prefix());
    let mut i: usize = 0;
    while i < lines.len()
        invariant
            i <= lines@.len(),
            pp@ == ppid_prefix(),
            parent_pid_spec(lines@, pid, i as int) == parent_pid_spec(lines@, pid, 0),
        decreases lines@.len() - i,
    {
        let line = lines[i].as_str();
        let b = line.as_bytes();
        assert(b@ == line_bytes(lines@, i as int));
        assert(b@.subrange(0, b@.len() as int) =~= b@);
        if range_starts_with(b, 0, b.len(), pp.as_slice()) {
            return match value_u32(line, 5) {
                Err(k) => {
                    let mut m = String::from_str("parse PPid: ");
                    m.append(int_error_str(k));
                    Err(ControlError { code: String::from_str("network_control_procfs"), message: m })
                },
                Ok(v) => Ok(v),
            };
        }
        i += 1;
    }
    let mut m = String::from_str("missing PPid for pid ");
    push_decimal(&mut m, pid as u64);
    Err(ControlError { code: String::from_str("network_control_procfs"), message: m })
}

} // verus!
