//! Verified decision logic of the AcTrail daemon services: payload
//! admission filters, capture-order reordering, redaction, rule parsing,
//! file-policy rules and shutdown bookkeeping.

pub mod assoc;
pub mod text;
pub mod words;
pub mod payload;
pub mod http2;
pub mod body_retention;
pub mod connect;
pub mod socket;
pub mod reorder;
pub mod reorder_laws;
pub mod shutdown;
pub mod shutdown_drain;
pub mod rules;
pub mod counts;
pub mod strmap;
pub mod live;
pub mod workload;
pub mod scope;
pub mod scope_laws;
pub mod post_trace;
pub mod redaction;
pub mod payload_policy;
pub mod decision;
pub mod facts;
pub mod order;
pub mod file_policy;
pub mod file_rules;
pub mod file_rules_laws;
pub mod file_audit;
pub mod sockaddr;
pub mod task_table;
pub mod post_trace_coordinator;
pub mod finalization;
pub mod fanotify_events;
pub mod net_policy;
pub mod net_rules;
pub mod net_rules_laws;
pub mod net_gray;
pub mod net_connect;
pub mod net_static;
pub mod task_status;
pub mod file_static;
pub mod file_permission;
pub mod post_trace_broker;
pub mod identity;
pub mod payload_laws;
