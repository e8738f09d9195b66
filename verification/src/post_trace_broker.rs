//! The post-trace host broker's own rules: which plugin instances are
//! registered and under which plugin, how much of a stored payload segment
//! a read returns, how result lists are paged, and which path a file-state
//! read concerns.
//!
//! The caller runs the request queue and the storage lookups; it hands each
//! lookup's outcome here.

use vstd::prelude::*;
use crate::net_connect::PluginRuntimeError;
use crate::payload::str_eq;
use crate::text::{decimal, push_decimal};

verus! {

/// A registered post-trace plugin instance.
#[derive(Debug)]
pub struct RegisteredPlugin {
    pub instance_id: String,
    pub plugin_id: String,
    pub payload_read_max_bytes: Option<u32>,
}

pub struct RegisteredView {
    pub instance_id: Seq<char>,
    pub plugin_id: Seq<char>,
    pub payload_read_max_bytes: Option<u32>,
}

impl View for RegisteredPlugin {
    type V = RegisteredView;

    open spec fn view(&self) -> RegisteredView {
        RegisteredView { instance_id: self.instance_id@, plugin_id: self.plugin_id@, payload_read_max_bytes: self.payload_read_max_bytes }
    }
}

pub open spec fn registered_views(s: Seq<RegisteredPlugin>) -> Seq<RegisteredView> {
    s.map_values(|r: RegisteredPlugin| r@)
}

/// The registered instances, at most one entry per instance id.
pub struct PostTraceRegistry {
    registrations: Vec<RegisteredPlugin>,
}

impl View for PostTraceRegistry {
    type V = Seq<RegisteredView>;

    closed spec fn view(&self) -> Seq<RegisteredView> {
        registered_views(self.registrations@)
    }
}

pub open spec fn registered(s: Seq<RegisteredView>, instance_id: Seq<char>) -> bool {
    exists|i: int| 0 <= i < s.len() && (#[trigger] s[i]).instance_id == instance_id
}

pub open spec fn ids_distinct(s: Seq<RegisteredView>) -> bool {
    forall|i: int, j: int| 0 <= i < j < s.len() ==> (#[trigger] s[i]).instance_id != (#[trigger] s[j]).instance_id
}

/// The registration of `instance_id`, if any.
pub open spec fn registration_of(s: Seq<RegisteredView>, instance_id: Seq<char>) -> Option<RegisteredView> {
    if registered(s, instance_id) {
        Some(s[choose|i: int| 0 <= i < s.len() && (#[trigger] s[i]).instance_id == instance_id])
    } else {
        None
    }
}

pub open spec fn runtime_error(e: PluginRuntimeError) -> (Seq<char>, Seq<char>) {
    (e.code@, e.message@)
}

fn registration_error(message: String) -> (e: PluginRuntimeError)
    ensures
        e.code@ == "post_trace_registration"@,
        e.message@ == message@,
{
    PluginRuntimeError { code: String::from_str("post_trace_registration"), message }
}

/// The file-state timeout of a plugin: its own limit, if it has one, but
/// never more than the broker's reply timeout.
pub fn file_state_timeout_ms(manifest_timeout_ms: Option<u64>, reply_timeout_ms: u64) -> (t: u64)
    ensures
        t == match manifest_timeout_ms {
            Some(m) => if m < reply_timeout_ms {
                m
            } else {
                reply_timeout_ms
            },
            None => reply_timeout_ms,
        },
{
    let wanted = match manifest_timeout_ms {
        Some(m) => m,
        None => reply_timeout_ms,
    };
    if wanted < reply_timeout_ms {
        wanted
    } else {
        reply_timeout_ms
    }
}

impl PostTraceRegistry {
    pub open spec fn wf(&self) -> bool {
        ids_distinct(self@)
    }

    pub fn new() -> (r: Self)
        ensures
            r.wf(),
            r@ == Seq::<RegisteredView>::empty(),
    {
        let r = PostTraceRegistry { registrations: Vec::new() };
        assert(registered_views(r.registrations@) =~= Seq::<RegisteredView>::empty());
        r
    }

    fn position(&self, instance_id: &str) -> (r: Option<usize>)
        ensures
            match r {
                Some(i) => i < self@.len() && self@[i as int].instance_id == instance_id@,
                None => !registered(self@, instance_id@),
            },
    {
        let mut i: usize = 0;
        while i < self.registrations.len()
            invariant
                i <= self.registrations@.len(),
                forall|k: int| 0 <= k < i ==> (#[trigger] registered_views(self.registrations@)[k]).instance_id != instance_id@,
            decreases self.registrations@.len() - i,
        {
            if str_eq(self.registrations[i].instance_id.as_str(), instance_id) {
                return Some(i);
            }
            i += 1;
        }
        None
    }

    /// Registers `instance_id` of plugin `plugin_id`; an instance id is
    /// registered once.
    pub fn register_plugin(&mut self, instance_id: &str, plugin_id: &str, payload_read_max_bytes: Option<u32>) -> (r: Result<(), PluginRuntimeError>)
        requires
            old(self).wf(),
        ensures
            final(self).wf(),
            registered(old(self)@, instance_id@) ==> (r matches Err(e) && e.code@ == "post_trace_registration"@ && e.message@
                == "post-trace plugin instance "@ + instance_id@ + " is already registered"@ && final(self)@ == old(self)@),
            !registered(old(self)@, instance_id@) ==> r is Ok && final(self)@ == old(self)@.push(
                RegisteredView { instance_id: instance_id@, plugin_id: plugin_id@, payload_read_max_bytes },
            ),
    {
        if self.position(instance_id).is_some() {
            let mut m = String::from_str("post-trace plugin instance ");
            m.append(instance_id);
            m.append(" is already registered");
            return Err(registration_error(m));
        }
        let ghost before = self@;
        self.registrations.push(RegisteredPlugin {
            instance_id: String::from_str(instance_id),
            plugin_id: String::from_str(plugin_id),
            payload_read_max_bytes,
        });
        assert(self@ =~= before.push(RegisteredView { instance_id: instance_id@, plugin_id: plugin_id@, payload_read_max_bytes }));
        Ok(())
    }

    /// Forgets `instance_id`.
    pub fn unregister_plugin(&mut self, instance_id: &str)
        requires
            old(self).wf(),
        ensures
            final(self).wf(),
            !registered(final(self)@, instance_id@),
            forall|i: int| 0 <= i < old(self)@.len() && (#[trigger] old(self)@[i]).instance_id != instance_id@ ==> final(self)@.contains(old(self)@[i]),
            forall|i: int| 0 <= i < final(self)@.len() ==> old(self)@.contains(#[trigger] final(self)@[i]),
    {
        match self.position(instance_id) {
            None => {},
            Some(p) => {
                let ghost before = self@;
                self.registrations.remove(p);
                assert(self@ =~= before.remove(p as int));
                proof {
                    assert forall|i: int| 0 <= i < before.len() && (#[trigger] before[i]).instance_id != instance_id@ implies self@.contains(before[i]) by {
                        if i < p {
                            assert(self@[i] == before[i]);
                        } else {
                            assert(self@[i - 1] == before[i]);
                        }
                    }
                    assert forall|i: int| 0 <= i < self@.len() implies before.contains(#[trigger] self@[i]) by {
                        if i < p {
                            assert(self@[i] == before[i]);
                        } else {
                            assert(self@[i] == before[i + 1]);
                        }
                    }
                    assert forall|k: int| 0 <= k < self@.len() implies (#[trigger] self@[k]).instance_id != instance_id@ by {
                        if k < p {
                            assert(self@[k] == before[k]);
                            assert(before[k].instance_id != before[p as int].instance_id);
                        } else {
                            assert(self@[k] == before[k + 1]);
                            assert(before[p as int].instance_id != before[k + 1].instance_id);
                        }
                    }
                }
            },
        }
    }

    /// The registration a request of (`instance_id`, `plugin_id`) is served
    /// under: the instance must be registered, for that plugin.
    pub fn registration(&self, instance_id: &str, plugin_id: &str) -> (r: Result<&RegisteredPlugin, PluginRuntimeError>)
        requires
            self.wf(),
        ensures
            match registration_of(self@, instance_id@) {
                None => r matches Err(e) && e.code@ == "post_trace_registration"@ && e.message@ == "plugin instance "@
                    + instance_id@ + " is not registered"@,
                Some(reg) => if reg.plugin_id == plugin_id@ {
                    r matches Ok(x) && x@ == reg
                } else {
                    r matches Err(e) && e.code@ == "post_trace_registration"@ && e.message@
                        == "plugin identity does not match the registered instance"@
                },
            },
    {
        match self.position(instance_id) {
            None => {
                let mut m = String::from_str("plugin instance ");
                m.append(instance_id);
                m.append(" is not registered");
                Err(registration_error(m))
            },
            Some(p) => {
                proof {
                    let c = choose|i: int| 0 <= i < self@.len() && (#[trigger] self@[i]).instance_id == instance_id@;
                    if c != p {
                        if c < p {
                            assert(self@[c].instance_id != self@[p as int].instance_id);
                        } else {
                            assert(self@[p as int].instance_id != self@[c].instance_id);
                        }
                    }
                }
                let reg = &self.registrations[p];
                if str_eq(reg.plugin_id.as_str(), plugin_id) {
                    Ok(reg)
                } else {
                    Err(registration_error(String::from_str("plugin identity does not match the registered instance")))
                }
            },
        }
    }
}

/// What a payload read returns.
#[derive(Debug)]
pub enum PayloadReadResult {
    Denied,
    NotFound,
    Failed,
    Chunk { bytes: Vec<u8>, total_bytes: usize, truncated: bool },
}

/// How a storage lookup of a payload segment went.
#[derive(Debug)]
pub enum SegmentLookup {
    Failed,
    Missing,
    /// A row: its trace and segment ids, and whether the plugin's grants
    /// cover the row's source boundary.
    Found { trace_id: u64, segment_id: u64, source_granted: bool },
}

/// The result a lookup forces, or none when the row may be read: a failed
/// lookup fails, a missing row is not found, a row of another trace or
/// segment or of an ungranted source is denied.
pub fn check_segment_row(lookup: &SegmentLookup, trace_id: u64, segment_id: u64) -> (r: Option<PayloadReadResult>)
    ensures
        match *lookup {
            SegmentLookup::Failed => r matches Some(PayloadReadResult::Failed),
            SegmentLookup::Missing => r matches Some(PayloadReadResult::NotFound),
            SegmentLookup::Found { trace_id: t, segment_id: s, source_granted } => if t != trace_id || s != segment_id
                || !source_granted {
                r matches Some(PayloadReadResult::Denied)
            } else {
                r is None
            },
        },
{
    match lookup {
        SegmentLookup::Failed => Some(PayloadReadResult::Failed),
        SegmentLookup::Missing => Some(PayloadReadResult::NotFound),
        SegmentLookup::Found { trace_id: t, segment_id: s, source_granted } => {
            if *t != trace_id || *s != segment_id || !*source_granted {
                Some(PayloadReadResult::Denied)
            } else {
                None
            }
        },
    }
}

pub open spec fn min_nat(a: int, b: int) -> int {
    if a < b {
        a
    } else {
        b
    }
}

/// The bytes a read at `offset` of at most `max_bytes` (and at most the
/// plugin's own limit) returns from a segment of `total` bytes: from
/// `start` to `end`.
pub open spec fn chunk_bounds(total: int, offset: u64, max_bytes: usize, read_max: Option<u32>) -> (int, int) {
    let limit = match read_max {
        Some(m) => min_nat(m as int, max_bytes as int),
        None => max_bytes as int,
    };
    let start = min_nat(min_nat(offset as int, usize::MAX as int), total);
    let end = min_nat(min_nat(start + limit, usize::MAX as int), total);
    (start, end)
}

/// The chunk a read of a stored segment returns: the bytes in bounds, the
/// segment's size, and whether bytes remain after the chunk.
pub fn payload_chunk(bytes: &[u8], offset: u64, max_bytes: usize, read_max: Option<u32>) -> (r: PayloadReadResult)
    ensures
        r matches PayloadReadResult::Chunk { bytes: b, total_bytes, truncated } && {
            let (start, end) = chunk_bounds(bytes@.len() as int, offset, max_bytes, read_max);
            &&& b@ == bytes@.subrange(start, end)
            &&& total_bytes == bytes@.len()
            &&& truncated == (end < bytes@.len())
        },
{
    let limit: usize = match read_max {
        Some(m) => {
            if (m as usize) < max_bytes {
                m as usize
            } else {
                max_bytes
            }
        },
        None => max_bytes,
    };
    let total = bytes.len();
    let off: usize = if offset > usize::MAX as u64 {
        usize::MAX
    } else {
        offset as usize
    };
    let start = if off < total {
        off
    } else {
        total
    };
    let reach = start.saturating_add(limit);
    let end = if reach < total {
        reach
    } else {
        total
    };
    let mut chunk: Vec<u8> = Vec::new();
    let mut i = start;
    while i < end
        invariant
            start <= i <= end <= bytes@.len(),
            chunk@ == bytes@.subrange(start as int, i as int),
        decreases end - i,
    {
        chunk.push(bytes[i]);
        i += 1;
        assert(chunk@ =~= bytes@.subrange(start as int, i as int));
    }
    PayloadReadResult::Chunk { bytes: chunk, total_bytes: total, truncated: end < total }
}

/// The page of `items` from `offset` on, at most `limit` long, and the
/// offset of the next page while items remain.
pub fn take_page<T>(items: Vec<T>, offset: usize, limit: usize) -> (r: (Vec<T>, Option<usize>))
    ensures
        ({
            let total = items@.len() as int;
            let start = min_nat(offset as int, total);
            let end = min_nat(min_nat(start + limit, usize::MAX as int), total);
            &&& r.0@ == items@.subrange(start, end)
            &&& r.1 == (if offset + (end - start) < total {
                Some((offset + (end - start)) as usize)
            } else {
                None::<usize>
            })
        }),
{
    let total = items.len();
    let mut items = items;
    let start = if offset < total {
        offset
    } else {
        total
    };
    let reach = start.saturating_add(limit);
    let end = if reach < total {
        reach
    } else {
        total
    };
    let ghost all = items@;
    items.truncate(end);
    let page = items.split_off(start);
    assert(page@ =~= all.subrange(start as int, end as int));
    let taken = page.len();
    let next = if offset <= usize::MAX - taken && offset + taken < total {
        Some(offset + taken)
    } else {
        None
    };
    (page, next)
}

/// The kind of the semantic action a file-state read names.
#[derive(Clone, Copy, Debug, PartialEq, Eq, Structural)]
pub enum FileStateAction {
    Modify,
    Write,
    Other,
}

pub open spec fn file_state_error(message: Seq<char>) -> (Seq<char>, Seq<char>) {
    ("trace_file_state"@, message)
}

fn file_state_failure(message: &str) -> (e: PluginRuntimeError)
    ensures
        e.code@ == "trace_file_state"@,
        e.message@ == message@,
{
    PluginRuntimeError { code: String::from_str("trace_file_state"), message: String::from_str(message) }
}

/// The observed path a file-state read concerns: a successful modify with
/// exactly one complete observed path, or a successful write with its
/// recorded path.
pub fn file_state_path(kind: FileStateAction, success: bool, observed_paths: &[String], write_path: Option<&str>) -> (r: Result<String, PluginRuntimeError>)
    ensures
        !(kind != FileStateAction::Other && success) ==> (r matches Err(e) && runtime_error(e) == file_state_error(
            "file-state reads require a successful file.modify or file.write action"@,
        )),
        kind == FileStateAction::Modify && success ==> if observed_paths@.len() == 1 {
            r matches Ok(p) && p@ == observed_paths@[0]@
        } else {
            r matches Err(e) && runtime_error(e) == file_state_error("file.modify state reads require exactly one complete observed path"@)
        },
        kind == FileStateAction::Write && success ==> match write_path {
            Some(p) => r matches Ok(q) && q@ == p@,
            None => r matches Err(e) && runtime_error(e) == file_state_error("file.write state reads require a complete observed path"@),
        },
{
    if kind == FileStateAction::Other || !success {
        return Err(file_state_failure("file-state reads require a successful file.modify or file.write action"));
    }
    match kind {
        FileStateAction::Modify => {
            if observed_paths.len() == 1 {
                Ok(observed_paths[0].clone())
            } else {
                Err(file_state_failure("file.modify state reads require exactly one complete observed path"))
            }
        },
        _ => match write_path {
            Some(p) => Ok(String::from_str(p)),
            None => Err(file_state_failure("file.write state reads require a complete observed path")),
        },
    }
}

/// The error for a semantic action a file-state read names but the trace
/// does not hold.
pub fn missing_action(action_id: &str, trace_id: u64) -> (e: PluginRuntimeError)
    ensures
        e.code@ == "trace_file_state"@,
        e.message@ == "semantic action "@ + action_id@ + " was not found in trace "@ + decimal(trace_id as nat),
{
    let mut m = String::from_str("semantic action ");
    m.append(action_id);
    m.append(" was not found in trace ");
    push_decimal(&mut m, trace_id);
    PluginRuntimeError { code: String::from_str("trace_file_state"), message: m }
}

} // verus!
