//! The data that flows between the resolver, the supervisor, the follow tasks
//! and the presenters.

use vstd::prelude::*;
use vstd::std_specs::cmp::PartialEqSpecImpl;

verus! {

/// The identity of one tailed container: cluster, namespace, pod and container.
#[derive(Debug, Hash)]
pub struct PodKey {
    pub cluster: String,
    pub namespace: String,
    pub pod_name: String,
    pub container_name: String,
}

/// What a `PodKey` is in contracts: its four names as character sequences.
pub struct PodKeyView {
    pub cluster: Seq<char>,
    pub namespace: Seq<char>,
    pub pod_name: Seq<char>,
    pub container_name: Seq<char>,
}

impl View for PodKey {
    type V = PodKeyView;

    open spec fn view(&self) -> PodKeyView {
        PodKeyView {
            cluster: self.cluster@,
            namespace: self.namespace@,
            pod_name: self.pod_name@,
            container_name: self.container_name@,
        }
    }
}

impl DeepView for PodKey {
    type V = PodKeyView;

    open spec fn deep_view(&self) -> PodKeyView {
        self@
    }
}

impl Clone for PodKey {
    fn clone(&self) -> (r: Self)
        ensures
            r@ == self@,
    {
        PodKey {
            cluster: self.cluster.clone(),
            namespace: self.namespace.clone(),
            pod_name: self.pod_name.clone(),
            container_name: self.container_name.clone(),
        }
    }
}

impl PartialEq for PodKey {
    fn eq(&self, other: &Self) -> (r: bool) {
        self.cluster == other.cluster && self.namespace == other.namespace && self.pod_name
            == other.pod_name && self.container_name == other.container_name
    }
}

impl PartialEqSpecImpl for PodKey {
    open spec fn obeys_eq_spec() -> bool {
        true
    }

    open spec fn eq_spec(&self, other: &Self) -> bool {
        self@ == other@
    }
}

impl Eq for PodKey {

}

impl PodKey {
    /// Whether this key names a container of the given pod.
    pub open spec fn in_pod(self, cluster: Seq<char>, namespace: Seq<char>, pod: Seq<char>) -> bool {
        self.cluster@ == cluster && self.namespace@ == namespace && self.pod_name@ == pod
    }
}

impl PodKeyView {
    /// Whether this key names a container of the given pod.
    pub open spec fn in_pod(self, cluster: Seq<char>, namespace: Seq<char>, pod: Seq<char>) -> bool {
        self.cluster == cluster && self.namespace == namespace && self.pod_name == pod
    }
}

/// A point in time: whole seconds since the Unix epoch, and the nanoseconds
/// into that second.
#[derive(Clone, Copy, Debug, PartialEq, Eq, Structural)]
pub struct Timestamp {
    pub secs: i64,
    pub nanos: u32,
}

impl Timestamp {
    /// The same instant one second later; the latest representable second
    /// stays where it is.
    pub fn plus_one_second(self) -> (r: Timestamp)
        ensures
            r.nanos == self.nanos,
            r.secs == if self.secs < i64::MAX { self.secs + 1 } else { self.secs as int },
    {
        Timestamp { secs: if self.secs < i64::MAX { self.secs + 1 } else { self.secs }, nanos: self.nanos }
    }
}

/// One log line with the container it came from and the time it was read.
#[derive(Debug)]
pub struct LogMessage {
    pub cluster: String,
    pub namespace: String,
    pub pod_name: String,
    pub container_name: String,
    pub line: String,
    pub timestamp: Timestamp,
}

/// What a `LogMessage` is in contracts.
pub struct LogMessageView {
    pub key: PodKeyView,
    pub line: Seq<char>,
    pub timestamp: Timestamp,
}

impl View for LogMessage {
    type V = LogMessageView;

    open spec fn view(&self) -> LogMessageView {
        LogMessageView {
            key: PodKeyView {
                cluster: self.cluster@,
                namespace: self.namespace@,
                pod_name: self.pod_name@,
                container_name: self.container_name@,
            },
            line: self.line@,
            timestamp: self.timestamp,
        }
    }
}

impl Clone for LogMessage {
    fn clone(&self) -> (r: Self)
        ensures
            r@ == self@,
    {
        LogMessage {
            cluster: self.cluster.clone(),
            namespace: self.namespace.clone(),
            pod_name: self.pod_name.clone(),
            container_name: self.container_name.clone(),
            line: self.line.clone(),
            timestamp: self.timestamp,
        }
    }
}

impl LogMessage {
    /// The container this line came from.
    pub fn key(&self) -> (k: PodKey)
        ensures
            k@ == self@.key,
    {
        PodKey {
            cluster: self.cluster.clone(),
            namespace: self.namespace.clone(),
            pod_name: self.pod_name.clone(),
            container_name: self.container_name.clone(),
        }
    }
}

/// A resource reference as the user wrote it: `[context/][namespace/][kind/]name`.
#[derive(Debug)]
pub struct ResourceSpec {
    pub context: Option<String>,
    pub namespace: Option<String>,
    pub kind: Option<String>,
    pub name: String,
}

/// What a `ResourceSpec` is in contracts.
pub struct ResourceSpecView {
    pub context: Option<Seq<char>>,
    pub namespace: Option<Seq<char>>,
    pub kind: Option<Seq<char>>,
    pub name: Seq<char>,
}

/// The characters of an optional string.
pub open spec fn opt_view(s: Option<String>) -> Option<Seq<char>> {
    match s {
        Some(t) => Some(t@),
        None => None,
    }
}

/// Copies an optional string.
pub fn clone_opt(s: &Option<String>) -> (r: Option<String>)
    ensures
        opt_view(r) == opt_view(*s),
{
    match s {
        Some(t) => Some(t.clone()),
        None => None,
    }
}

impl View for ResourceSpec {
    type V = ResourceSpecView;

    open spec fn view(&self) -> ResourceSpecView {
        ResourceSpecView {
            context: opt_view(self.context),
            namespace: opt_view(self.namespace),
            kind: opt_view(self.kind),
            name: self.name@,
        }
    }
}

impl Clone for ResourceSpec {
    fn clone(&self) -> (r: Self)
        ensures
            r@ == self@,
    {
        ResourceSpec {
            context: clone_opt(&self.context),
            namespace: clone_opt(&self.namespace),
            kind: clone_opt(&self.kind),
            name: self.name.clone(),
        }
    }
}

/// Why logs could not be read for a while.
#[derive(Debug)]
pub enum GapReason {
    /// The stream ended.
    StreamEnded,
    /// The API answered with this status code.
    ApiError(u16),
    /// The connection failed.
    Network(String),
}

/// The state of the connection to one container's log stream.
#[derive(Debug)]
pub enum ConnectionState {
    Connected,
    Reconnecting { attempt: u32 },
    /// Disconnected since this second of Unix time.
    Disconnected { since: u64 },
    Failed(String),
}

/// How grave a message is.
#[derive(Clone, Copy, Debug, PartialEq, Eq, Structural)]
pub enum LogLevel {
    Error,
    Warning,
    Info,
    Debug,
}

/// What flows over the event bus to the presenter.
#[derive(Debug)]
pub enum LogEvent {
    /// One log line.
    Log(LogMessage),
    /// Logs of a container could not be read for this many milliseconds.
    Gap { key: PodKey, duration_ms: u64, reason: GapReason },
    /// The connection to a container's log stream changed its state.
    StatusChange { key: PodKey, new_state: ConnectionState },
    /// A message of the tool itself.
    SystemMessage { level: LogLevel, message: String },
}

/// What a `GapReason` is in contracts.
pub enum GapReasonView {
    StreamEnded,
    ApiError(u16),
    Network(Seq<char>),
}

/// What a `ConnectionState` is in contracts.
pub enum ConnectionStateView {
    Connected,
    Reconnecting { attempt: u32 },
    Disconnected { since: u64 },
    Failed(Seq<char>),
}

/// What a `LogEvent` is in contracts.
pub enum LogEventView {
    Log(LogMessageView),
    Gap { key: PodKeyView, duration_ms: u64, reason: GapReasonView },
    StatusChange { key: PodKeyView, new_state: ConnectionStateView },
    SystemMessage { level: LogLevel, message: Seq<char> },
}

impl View for GapReason {
    type V = GapReasonView;

    open spec fn view(&self) -> GapReasonView {
        match self {
            GapReason::StreamEnded => GapReasonView::StreamEnded,
            GapReason::ApiError(code) => GapReasonView::ApiError(*code),
            GapReason::Network(s) => GapReasonView::Network(s@),
        }
    }
}

impl View for ConnectionState {
    type V = ConnectionStateView;

    open spec fn view(&self) -> ConnectionStateView {
        match self {
            ConnectionState::Connected => ConnectionStateView::Connected,
            ConnectionState::Reconnecting { attempt } => ConnectionStateView::Reconnecting {
                attempt: *attempt,
            },
            ConnectionState::Disconnected { since } => ConnectionStateView::Disconnected {
                since: *since,
            },
            ConnectionState::Failed(s) => ConnectionStateView::Failed(s@),
        }
    }
}

impl View for LogEvent {
    type V = LogEventView;

    open spec fn view(&self) -> LogEventView {
        match self {
            LogEvent::Log(m) => LogEventView::Log(m@),
            LogEvent::Gap { key, duration_ms, reason } => LogEventView::Gap {
                key: key@,
                duration_ms: *duration_ms,
                reason: reason@,
            },
            LogEvent::StatusChange { key, new_state } => LogEventView::StatusChange {
                key: key@,
                new_state: new_state@,
            },
            LogEvent::SystemMessage { level, message } => LogEventView::SystemMessage {
                level: *level,
                message: message@,
            },
        }
    }
}

impl Clone for GapReason {
    fn clone(&self) -> (r: Self)
        ensures
            r@ == self@,
    {
        match self {
            GapReason::StreamEnded => GapReason::StreamEnded,
            GapReason::ApiError(code) => GapReason::ApiError(*code),
            GapReason::Network(s) => GapReason::Network(s.clone()),
        }
    }
}

impl Clone for ConnectionState {
    fn clone(&self) -> (r: Self)
        ensures
            r@ == self@,
    {
        match self {
            ConnectionState::Connected => ConnectionState::Connected,
            ConnectionState::Reconnecting { attempt } => ConnectionState::Reconnecting {
                attempt: *attempt,
            },
            ConnectionState::Disconnected { since } => ConnectionState::Disconnected {
                since: *since,
            },
            ConnectionState::Failed(s) => ConnectionState::Failed(s.clone()),
        }
    }
}

impl Clone for LogEvent {
    fn clone(&self) -> (r: Self)
        ensures
            r@ == self@,
    {
        match self {
            LogEvent::Log(m) => LogEvent::Log(m.clone()),
            LogEvent::Gap { key, duration_ms, reason } => LogEvent::Gap {
                key: key.clone(),
                duration_ms: *duration_ms,
                reason: reason.clone(),
            },
            LogEvent::StatusChange { key, new_state } => LogEvent::StatusChange {
                key: key.clone(),
                new_state: new_state.clone(),
            },
            LogEvent::SystemMessage { level, message } => LogEvent::SystemMessage {
                level: *level,
                message: message.clone(),
            },
        }
    }
}

} // verus!
