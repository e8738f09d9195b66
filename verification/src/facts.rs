//! Facts that post-trace analysis reads about a finished trace: where a
//! process saw the file system from.

use vstd::prelude::*;

verus! {

/// A kernel namespace, by the text its `/proc/<pid>/ns/<kind>` link names
/// (such as `pid:[4026531836]`).
#[derive(Clone, Debug)]
pub struct NamespaceIdentity {
    pub value: String,
}

impl NamespaceIdentity {
    pub fn new(value: &str) -> (r: Self)
        ensures
            r.value@ == value@,
    {
        NamespaceIdentity { value: String::from_str(value) }
    }
}

/// Paths a process observed must be resolved through its own root when it
/// ran in another PID namespace than the daemon; the decision looks at the
/// namespace only, never at how the process was attributed to the trace.
pub fn requires_namespaced_root(process_pid_namespace: &NamespaceIdentity, host_pid_namespace: &NamespaceIdentity) -> (r: bool)
    ensures
        r == (process_pid_namespace.value@ != host_pid_namespace.value@),
{
    !crate::payload::str_eq(process_pid_namespace.value.as_str(), host_pid_namespace.value.as_str())
}

} // verus!
