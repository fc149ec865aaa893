//! The data model: what is known of each tracked service, and the
//! mathematical view that the contracts speak of.

use vstd::prelude::*;
use crate::text::same_text;

verus! {

/// Names a workload by kind, name and namespace.
#[derive(Debug, PartialEq, Eq, Hash)]
pub struct WorkloadReference {
    pub kind: String,
    pub name: String,
    pub namespace: String,
}

/// A workload reference as three character sequences.
pub struct WorkloadReferenceView {
    pub kind: Seq<char>,
    pub name: Seq<char>,
    pub namespace: Seq<char>,
}

impl View for WorkloadReference {
    type V = WorkloadReferenceView;

    open spec fn view(&self) -> WorkloadReferenceView {
        WorkloadReferenceView { kind: self.kind@, name: self.name@, namespace: self.namespace@ }
    }
}

impl Clone for WorkloadReference {
    fn clone(&self) -> (copy: Self)
        ensures
            copy@ == self@,
    {
        WorkloadReference {
            kind: self.kind.clone(),
            name: self.name.clone(),
            namespace: self.namespace.clone(),
        }
    }
}

/// An autoscaler's settings, kept while the autoscaler itself is removed.
/// `metrics` and `behavior` hold the autoscaler's own payloads as JSON text.
#[derive(Debug, PartialEq, Eq)]
pub struct HPAConfig {
    pub min_replicas: Option<i32>,
    pub max_replicas: i32,
    pub target_cpu_utilization_percentage: Option<i32>,
    pub metrics: Option<String>,
    pub behavior: Option<String>,
}

/// An autoscaler's settings with the payloads as character sequences.
pub struct HPAConfigView {
    pub min_replicas: Option<i32>,
    pub max_replicas: i32,
    pub target_cpu_utilization_percentage: Option<i32>,
    pub metrics: Option<Seq<char>>,
    pub behavior: Option<Seq<char>>,
}

/// The characters of an optional string.
pub open spec fn text_of(s: Option<String>) -> Option<Seq<char>> {
    match s {
        Some(t) => Some(t@),
        None => None,
    }
}

/// Copies an optional string.
pub fn clone_text(s: &Option<String>) -> (copy: Option<String>)
    ensures
        text_of(copy) == text_of(*s),
{
    match s {
        Some(t) => Some(t.clone()),
        None => None,
    }
}

/// Copies a list of strings.
pub fn clone_texts(list: &Vec<String>) -> (copy: Vec<String>)
    ensures
        copy.deep_view() == list.deep_view(),
{
    let mut copy: Vec<String> = Vec::new();
    let mut i: usize = 0;
    while i < list.len()
        invariant
            i <= list.len(),
            copy.len() == i,
            forall|k: int| 0 <= k < i ==> copy@[k]@ == list@[k]@,
        decreases list.len() - i,
    {
        copy.push(list[i].clone());
        i += 1;
    }
    assert(copy.deep_view() =~= list.deep_view());
    copy
}

impl View for HPAConfig {
    type V = HPAConfigView;

    open spec fn view(&self) -> HPAConfigView {
        HPAConfigView {
            min_replicas: self.min_replicas,
            max_replicas: self.max_replicas,
            target_cpu_utilization_percentage: self.target_cpu_utilization_percentage,
            metrics: text_of(self.metrics),
            behavior: text_of(self.behavior),
        }
    }
}

impl Clone for HPAConfig {
    fn clone(&self) -> (copy: Self)
        ensures
            copy@ == self@,
    {
        HPAConfig {
            min_replicas: self.min_replicas,
            max_replicas: self.max_replicas,
            target_cpu_utilization_percentage: self.target_cpu_utilization_percentage,
            metrics: clone_text(&self.metrics),
            behavior: clone_text(&self.behavior),
        }
    }
}

/// The view of an optional autoscaler configuration.
pub open spec fn config_of(c: Option<HPAConfig>) -> Option<HPAConfigView> {
    match c {
        Some(h) => Some(h@),
        None => None,
    }
}

/// Copies an optional autoscaler configuration.
pub fn clone_config(c: &Option<HPAConfig>) -> (copy: Option<HPAConfig>)
    ensures
        config_of(copy) == config_of(*c),
{
    match c {
        Some(h) => Some(h.clone()),
        None => None,
    }
}

/// The kinds of workload that can be scaled.
#[derive(Debug, Clone, Copy, PartialEq, Eq, Structural)]
pub enum WorkloadKind {
    Deployment,
    StatefulSet,
}

/// The kind that a kind name denotes: `deployment`, or `statefulset`, which
/// may also be written `stateful_set`.
pub open spec fn kind_of(name: Seq<char>) -> Option<WorkloadKind> {
    if name == "deployment"@ {
        Some(WorkloadKind::Deployment)
    } else if name == "statefulset"@ || name == "stateful_set"@ {
        Some(WorkloadKind::StatefulSet)
    } else {
        None
    }
}

/// Reads a kind name.
pub fn workload_kind(name: &str) -> (kind: Option<WorkloadKind>)
    ensures
        kind == kind_of(name@),
{
    if same_text(name, "deployment") {
        Some(WorkloadKind::Deployment)
    } else if same_text(name, "statefulset") || same_text(name, "stateful_set") {
        Some(WorkloadKind::StatefulSet)
    } else {
        None
    }
}

impl WorkloadKind {
    /// The name under which the kind is stored.
    pub open spec fn name(self) -> Seq<char> {
        match self {
            WorkloadKind::Deployment => "deployment"@,
            WorkloadKind::StatefulSet => "statefulset"@,
        }
    }

    /// The name under which the kind is stored: `deployment` or `statefulset`.
    pub fn as_string(&self) -> (name: String)
        ensures
            name@ == self.name(),
    {
        match self {
            WorkloadKind::Deployment => String::from_str("deployment"),
            WorkloadKind::StatefulSet => String::from_str("statefulset"),
        }
    }
}

/// Everything known of one tracked service.
#[derive(Debug, PartialEq, Eq)]
pub struct ServiceData {
    /// Idle threshold in seconds.
    pub scale_down_time: i64,
    /// Seconds since the epoch of the latest traffic or dependency activity.
    pub last_packet_time: i64,
    pub kind: String,
    pub name: String,
    pub namespace: String,
    /// Whether the workload was last set to at least one replica.
    pub backend_available: bool,
    /// Services this one calls: its children.
    pub dependencies: Vec<String>,
    /// Services that call this one: its parents.
    pub dependents: Vec<String>,
    pub hpa_enabled: bool,
    pub hpa_name: Option<String>,
    /// Set while the autoscaler is removed for a stay at zero replicas.
    pub hpa_deleted: bool,
    pub hpa_config: Option<HPAConfig>,
    /// Low for parents (down first, up last), high for children.
    pub scaling_priority: i32,
}

/// A service's data over character sequences.
pub struct ServiceDataView {
    pub scale_down_time: i64,
    pub last_packet_time: i64,
    pub kind: Seq<char>,
    pub name: Seq<char>,
    pub namespace: Seq<char>,
    pub backend_available: bool,
    pub dependencies: Seq<Seq<char>>,
    pub dependents: Seq<Seq<char>>,
    pub hpa_enabled: bool,
    pub hpa_name: Option<Seq<char>>,
    pub hpa_deleted: bool,
    pub hpa_config: Option<HPAConfigView>,
    pub scaling_priority: i32,
}

impl ServiceDataView {
    /// The autoscaler fields agree with one another: a managed autoscaler has
    /// a name and a configuration, and only a managed one can be removed.
    pub open spec fn wf(self) -> bool {
        &&& self.hpa_enabled ==> self.hpa_name is Some && self.hpa_config is Some
        &&& self.hpa_deleted ==> self.hpa_enabled
    }
}

impl View for ServiceData {
    type V = ServiceDataView;

    open spec fn view(&self) -> ServiceDataView {
        ServiceDataView {
            scale_down_time: self.scale_down_time,
            last_packet_time: self.last_packet_time,
            kind: self.kind@,
            name: self.name@,
            namespace: self.namespace@,
            backend_available: self.backend_available,
            dependencies: self.dependencies.deep_view(),
            dependents: self.dependents.deep_view(),
            hpa_enabled: self.hpa_enabled,
            hpa_name: text_of(self.hpa_name),
            hpa_deleted: self.hpa_deleted,
            hpa_config: config_of(self.hpa_config),
            scaling_priority: self.scaling_priority,
        }
    }
}

impl Clone for ServiceData {
    fn clone(&self) -> (copy: Self)
        ensures
            copy@ == self@,
    {
        let hpa_config = match &self.hpa_config {
            Some(c) => Some(c.clone()),
            None => None,
        };
        ServiceData {
            scale_down_time: self.scale_down_time,
            last_packet_time: self.last_packet_time,
            kind: self.kind.clone(),
            name: self.name.clone(),
            namespace: self.namespace.clone(),
            backend_available: self.backend_available,
            dependencies: clone_texts(&self.dependencies),
            dependents: clone_texts(&self.dependents),
            hpa_enabled: self.hpa_enabled,
            hpa_name: clone_text(&self.hpa_name),
            hpa_deleted: self.hpa_deleted,
            hpa_config,
            scaling_priority: self.scaling_priority,
        }
    }
}

/// The view of optional service data.
pub open spec fn data_of(d: Option<ServiceData>) -> Option<ServiceDataView> {
    match d {
        Some(s) => Some(s@),
        None => None,
    }
}

/// One record of the packet event channel.
#[derive(Debug, Clone, Copy, PartialEq, Eq)]
pub struct PacketLog {
    /// Destination address, most significant octet first.
    pub ipv4_address: u32,
    /// 1 where the packet was dropped and the service must wake, else 0.
    pub action: u32,
}

} // verus!
