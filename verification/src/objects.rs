//! Kubernetes core objects (pods, nodes, events, services) as the analyses read them.

use vstd::prelude::*;
use crate::labels::Labels;

verus! {

/// A point in time: seconds since the Unix epoch and the nanoseconds within that second.
#[derive(Clone, Copy, Debug, PartialEq, Eq, Structural)]
pub struct Timestamp {
    pub seconds: i64,
    pub nanos: u32,
}

/// `a` is no later than `b`.
pub open spec fn no_later(a: Timestamp, b: Timestamp) -> bool {
    a.seconds < b.seconds || (a.seconds == b.seconds && a.nanos <= b.nanos)
}

impl Timestamp {
    /// Whether `self` is strictly later than `other`.
    pub fn is_after(&self, other: &Timestamp) -> (b: bool)
        ensures
            b == !no_later(*self, *other),
    {
        self.seconds > other.seconds || (self.seconds == other.seconds && self.nanos > other.nanos)
    }
}

/// How a container last terminated.
#[derive(Clone, Debug, PartialEq)]
pub struct TerminatedState {
    pub exit_code: i32,
    pub reason: Option<String>,
}

/// Status of one container of a pod.
#[derive(Clone, Debug, PartialEq)]
pub struct ContainerStatus {
    pub ready: bool,
    /// The container's previous termination, if it has terminated before.
    pub last_terminated: Option<TerminatedState>,
}

/// CPU (millicores) and memory (MiB) amounts of a resource list; `None` when the list
/// has no entry for the resource.
#[derive(Clone, Copy, Debug, PartialEq, Eq, Structural)]
pub struct ResourceAmounts {
    pub cpu_millis: Option<i64>,
    pub memory_mib: Option<i64>,
}

/// Requests and limits of one container.
#[derive(Clone, Copy, Debug, PartialEq, Eq, Structural)]
pub struct ContainerResources {
    pub requests: Option<ResourceAmounts>,
    pub limits: Option<ResourceAmounts>,
}

/// A pod.
#[derive(Debug, PartialEq)]
pub struct PodRecord {
    pub name: String,
    pub namespace: Option<String>,
    pub labels: Option<Labels>,
    /// The node the pod is scheduled on.
    pub node_name: Option<String>,
    pub phase: Option<String>,
    pub container_statuses: Option<Vec<ContainerStatus>>,
    /// Resources of each container; `None` when the pod has no spec.
    pub containers: Option<Vec<ContainerResources>>,
}

/// A node and its allocatable capacity.
#[derive(Clone, Debug, PartialEq)]
pub struct NodeRecord {
    pub name: String,
    pub allocatable_cpu_millis: Option<i64>,
    pub allocatable_memory_mib: Option<i64>,
}

/// A cluster event.
#[derive(Clone, Debug, PartialEq)]
pub struct EventRecord {
    pub involved_kind: Option<String>,
    pub involved_name: Option<String>,
    pub involved_namespace: Option<String>,
    pub last_timestamp: Option<Timestamp>,
    pub event_time: Option<Timestamp>,
    pub reason: Option<String>,
    pub message: Option<String>,
    /// `Normal` or `Warning`.
    pub event_type: Option<String>,
    /// The reporting component.
    pub source_component: Option<String>,
}

/// A port of a service.
#[derive(Clone, Debug, PartialEq)]
pub struct ServicePortRecord {
    pub name: Option<String>,
    pub port: i32,
}

/// A Kubernetes service.
#[derive(Debug, PartialEq)]
pub struct ServiceRecord {
    pub name: String,
    pub namespace: Option<String>,
    pub selector: Option<Labels>,
    pub ports: Option<Vec<ServicePortRecord>>,
}

} // verus!
