//! The autoscaler suspension controller: what is kept of an autoscaler that
//! is removed for a stay at zero replicas, and what is created in its place
//! afterwards.

use vstd::prelude::*;
use crate::models::{
    HPAConfig, HPAConfigView, ServiceData, ServiceDataView, clone_text, config_of, data_of,
    text_of,
};
use crate::registry::{Registry, lookup, upsert};
use crate::text::same_text;

verus! {

/// The resource that a metric of type `Resource` watches.
#[derive(Debug, PartialEq, Eq)]
pub struct ResourceMetric {
    pub name: String,
    /// The target average utilization, in percent.
    pub average_utilization: Option<i32>,
}

/// What the controller reads of one metric of an autoscaler.
#[derive(Debug, PartialEq, Eq)]
pub struct MetricInfo {
    pub type_: String,
    pub resource: Option<ResourceMetric>,
}

/// What the controller reads of an autoscaler's spec.
#[derive(Debug, PartialEq, Eq)]
pub struct HpaSpecInfo {
    pub min_replicas: Option<i32>,
    pub max_replicas: i32,
    pub metrics: Option<Vec<MetricInfo>>,
    /// The metrics as JSON text, where there are metrics and they can be
    /// written as JSON.
    pub metrics_json: Option<String>,
    /// The scaling behavior as JSON text, likewise.
    pub behavior_json: Option<String>,
}

/// Whether a metric is the CPU resource metric.
pub open spec fn is_cpu_metric(metric: MetricInfo) -> bool {
    &&& metric.type_@ == "Resource"@
    &&& metric.resource matches Some(r)
    &&& r.name@ == "cpu"@
}

/// The utilization target of the first CPU resource metric.
pub open spec fn cpu_target(metrics: Seq<MetricInfo>) -> Option<i32>
    decreases metrics.len(),
{
    if metrics.len() == 0 {
        None
    } else if is_cpu_metric(metrics[0]) {
        metrics[0].resource->0.average_utilization
    } else {
        cpu_target(metrics.drop_first())
    }
}

/// What is kept of an autoscaler with the spec `spec`: its bounds, the
/// target of its first CPU metric and its payloads as they are. Of an
/// autoscaler without a spec: 1 to 5 replicas at 80 percent CPU.
pub open spec fn captured(spec: Option<HpaSpecInfo>) -> HPAConfigView {
    match spec {
        Some(s) => HPAConfigView {
            min_replicas: s.min_replicas,
            max_replicas: s.max_replicas,
            target_cpu_utilization_percentage: match s.metrics {
                Some(metrics) => cpu_target(metrics@),
                None => None,
            },
            metrics: text_of(s.metrics_json),
            behavior: text_of(s.behavior_json),
        },
        None => HPAConfigView {
            min_replicas: Some(1),
            max_replicas: 5,
            target_cpu_utilization_percentage: Some(80),
            metrics: None,
            behavior: None,
        },
    }
}

fn find_cpu_target(metrics: &Vec<MetricInfo>) -> (target: Option<i32>)
    ensures
        target == cpu_target(metrics@),
{
    let n = metrics.len();
    let mut i: usize = 0;
    assert(metrics@.subrange(0, n as int) =~= metrics@);
    while i < n
        invariant
            i <= n,
            n == metrics@.len(),
            cpu_target(metrics@) == cpu_target(metrics@.subrange(i as int, n as int)),
        decreases n - i,
    {
        let ghost rest = metrics@.subrange(i as int, n as int);
        assert(rest[0] == metrics@[i as int]);
        assert(rest.drop_first() =~= metrics@.subrange(i as int + 1, n as int));
        let metric = &metrics[i];
        if same_text(metric.type_.as_str(), "Resource") {
            match &metric.resource {
                Some(r) => {
                    if same_text(r.name.as_str(), "cpu") {
                        return r.average_utilization;
                    }
                },
                None => {},
            }
        }
        i += 1;
    }
    None
}

/// Captures the settings of an autoscaler that is about to be removed.
pub fn capture_hpa_config(spec: &Option<HpaSpecInfo>) -> (config: HPAConfig)
    ensures
        config@ == captured(*spec),
{
    match spec {
        Some(s) => HPAConfig {
            min_replicas: s.min_replicas,
            max_replicas: s.max_replicas,
            target_cpu_utilization_percentage: match &s.metrics {
                Some(metrics) => find_cpu_target(metrics),
                None => None,
            },
            metrics: clone_text(&s.metrics_json),
            behavior: clone_text(&s.behavior_json),
        },
        None => HPAConfig {
            min_replicas: Some(1),
            max_replicas: 5,
            target_cpu_utilization_percentage: Some(80),
            metrics: None,
            behavior: None,
        },
    }
}

/// The RFC 3339 text of the instant `secs` seconds and `nanos` nanoseconds
/// after the epoch, in UTC; `None` where the instant cannot be represented.
pub uninterp spec fn rfc3339_text(secs: i64, nanos: u32) -> Option<Seq<char>>;

/// `chrono::DateTime::from_timestamp`, then `DateTime::to_rfc3339` on what it
/// gives: the text depends on the two numbers alone, and there is none where
/// chrono cannot represent the instant.
#[verifier::external_body]
fn format_rfc3339(secs: i64, nanos: u32) -> (text: Option<String>)
    ensures
        text_of(text) == rfc3339_text(secs, nanos),
{
    match chrono::DateTime::from_timestamp(secs, nanos) {
        Some(instant) => Some(instant.to_rfc3339()),
        None => None,
    }
}

/// The autoscaler object to create in place of one that was removed.
#[derive(Debug, PartialEq, Eq)]
pub struct HpaManifest {
    pub name: String,
    pub namespace: String,
    /// API version of the scale target: `apps/v1`.
    pub target_api_version: String,
    /// Kind of the scale target: `Deployment`.
    pub target_kind: String,
    pub target_name: String,
    pub min_replicas: Option<i32>,
    pub max_replicas: i32,
    /// The target of the one CPU utilization metric to set, if any.
    pub cpu_utilization: Option<i32>,
    /// JSON text of metrics that take the CPU metric's place where the text
    /// reads as metrics.
    pub custom_metrics: Option<String>,
    /// JSON text of the scaling behavior to set where it reads as one.
    pub behavior: Option<String>,
    /// Value of the annotation `scale-to-zero/recreated-at`.
    pub recreated_at: String,
}

/// A manifest over character sequences.
pub struct HpaManifestView {
    pub name: Seq<char>,
    pub namespace: Seq<char>,
    pub target_api_version: Seq<char>,
    pub target_kind: Seq<char>,
    pub target_name: Seq<char>,
    pub min_replicas: Option<i32>,
    pub max_replicas: i32,
    pub cpu_utilization: Option<i32>,
    pub custom_metrics: Option<Seq<char>>,
    pub behavior: Option<Seq<char>>,
    pub recreated_at: Seq<char>,
}

impl View for HpaManifest {
    type V = HpaManifestView;

    open spec fn view(&self) -> HpaManifestView {
        HpaManifestView {
            name: self.name@,
            namespace: self.namespace@,
            target_api_version: self.target_api_version@,
            target_kind: self.target_kind@,
            target_name: self.target_name@,
            min_replicas: self.min_replicas,
            max_replicas: self.max_replicas,
            cpu_utilization: self.cpu_utilization,
            custom_metrics: text_of(self.custom_metrics),
            behavior: text_of(self.behavior),
            recreated_at: self.recreated_at@,
        }
    }
}

/// The manifest that recreates an autoscaler from its kept settings.
pub open spec fn manifest_of(
    namespace: Seq<char>,
    hpa_name: Seq<char>,
    deployment_name: Seq<char>,
    config: HPAConfigView,
    recreated_at: Seq<char>,
) -> HpaManifestView {
    HpaManifestView {
        name: hpa_name,
        namespace,
        target_api_version: "apps/v1"@,
        target_kind: "Deployment"@,
        target_name: deployment_name,
        min_replicas: config.min_replicas,
        max_replicas: config.max_replicas,
        cpu_utilization: config.target_cpu_utilization_percentage,
        custom_metrics: config.metrics,
        behavior: config.behavior,
        recreated_at,
    }
}

/// Builds the autoscaler to create for `deployment_name` from kept settings,
/// marked with the time of its recreation.
pub fn build_manifest(
    namespace: &str,
    hpa_name: &str,
    deployment_name: &str,
    hpa_config: &HPAConfig,
    recreated_at: String,
) -> (manifest: HpaManifest)
    ensures
        manifest@ == manifest_of(
            namespace@,
            hpa_name@,
            deployment_name@,
            hpa_config@,
            recreated_at@,
        ),
{
    HpaManifest {
        name: String::from_str(hpa_name),
        namespace: String::from_str(namespace),
        target_api_version: String::from_str("apps/v1"),
        target_kind: String::from_str("Deployment"),
        target_name: String::from_str(deployment_name),
        min_replicas: hpa_config.min_replicas,
        max_replicas: hpa_config.max_replicas,
        cpu_utilization: hpa_config.target_cpu_utilization_percentage,
        custom_metrics: clone_text(&hpa_config.metrics),
        behavior: clone_text(&hpa_config.behavior),
        recreated_at,
    }
}

/// The view of an optional manifest.
pub open spec fn manifest_view(manifest: Option<HpaManifest>) -> Option<HpaManifestView> {
    match manifest {
        Some(m) => Some(m@),
        None => None,
    }
}

/// The manifest for a recreation at the instant `secs`, `nanos`.
pub open spec fn planned_manifest(
    namespace: Seq<char>,
    hpa_name: Seq<char>,
    deployment_name: Seq<char>,
    config: HPAConfigView,
    secs: i64,
    nanos: u32,
) -> Option<HpaManifestView> {
    match rfc3339_text(secs, nanos) {
        Some(text) => Some(manifest_of(namespace, hpa_name, deployment_name, config, text)),
        None => None,
    }
}

/// Builds the autoscaler to create at the instant `now_secs` seconds and
/// `now_nanos` nanoseconds after the epoch; none where that instant has no
/// RFC 3339 text.
pub fn plan_recreation(
    namespace: &str,
    hpa_name: &str,
    deployment_name: &str,
    hpa_config: &HPAConfig,
    now_secs: i64,
    now_nanos: u32,
) -> (manifest: Option<HpaManifest>)
    ensures
        manifest_view(manifest) == planned_manifest(
            namespace@,
            hpa_name@,
            deployment_name@,
            hpa_config@,
            now_secs,
            now_nanos,
        ),
{
    match format_rfc3339(now_secs, now_nanos) {
        Some(text) => Some(build_manifest(namespace, hpa_name, deployment_name, hpa_config, text)),
        None => None,
    }
}

/// An autoscaler recreated from what was captured of it has the bounds, the
/// CPU target and the payloads of the one that was captured.
pub proof fn lemma_capture_round_trip(
    spec: HpaSpecInfo,
    namespace: Seq<char>,
    hpa_name: Seq<char>,
    deployment_name: Seq<char>,
    recreated_at: Seq<char>,
)
    ensures
        ({
            let m = manifest_of(
                namespace,
                hpa_name,
                deployment_name,
                captured(Some(spec)),
                recreated_at,
            );
            &&& m.min_replicas == spec.min_replicas
            &&& m.max_replicas == spec.max_replicas
            &&& m.cpu_utilization == match spec.metrics {
                Some(metrics) => cpu_target(metrics@),
                None => None,
            }
            &&& m.custom_metrics == text_of(spec.metrics_json)
            &&& m.behavior == text_of(spec.behavior_json)
        }),
{
}

/// Why an autoscaler operation failed.
#[derive(Debug, Clone, Copy, PartialEq, Eq, Structural)]
pub enum HpaError {
    /// The cluster refused to delete the autoscaler.
    DeleteFailed,
    /// The cluster refused to create the autoscaler.
    CreateFailed,
}

/// What the cluster answered when an autoscaler was to be removed.
pub enum DeleteOutcome {
    /// There is no such autoscaler.
    Missing,
    /// The autoscaler was found with this spec; `deleted` tells whether the
    /// cluster then deleted it.
    Found { spec: Option<HpaSpecInfo>, deleted: bool },
}

/// What the cluster answered when an autoscaler was to be recreated.
#[derive(Debug, Clone, Copy, PartialEq, Eq, Structural)]
pub enum RecreateOutcome {
    /// An autoscaler of that name was in the way and could not be deleted.
    StaleNotDeleted,
    /// The cluster refused the new autoscaler.
    NotCreated,
    /// The new autoscaler is in place.
    Created,
}

/// The name under which a suspended autoscaler is remembered:
/// `namespace/name`.
pub open spec fn suspension_key(namespace: Seq<char>, hpa_name: Seq<char>) -> Seq<char> {
    namespace + "/"@ + hpa_name
}

/// Whether `key` is among `list`.
pub open spec fn holds(list: Seq<String>, key: Seq<char>) -> bool {
    exists|i: int| 0 <= i < list.len() && (#[trigger] list[i])@ == key
}

/// A list with one more string holds what it held, and that string.
pub proof fn lemma_holds_push(list: Seq<String>, e: String)
    ensures
        forall|x: Seq<char>| #[trigger] holds(list.push(e), x) == (holds(list, x) || x == e@),
{
    let longer = list.push(e);
    assert forall|x: Seq<char>| #[trigger] holds(longer, x) == (holds(list, x) || x == e@) by {
        if holds(list, x) {
            let i = choose|i: int| 0 <= i < list.len() && (#[trigger] list[i])@ == x;
            assert(longer[i]@ == x);
        }
        if x == e@ {
            assert(longer[list.len() as int]@ == x);
        }
        if holds(longer, x) && x != e@ {
            let i = choose|i: int| 0 <= i < longer.len() && (#[trigger] longer[i])@ == x;
            assert(list[i]@ == x);
        }
    }
}

/// Keeps the set of autoscalers that are suspended.
pub struct HPASuspensionController {
    suspended_hpas: Vec<String>,
}

impl View for HPASuspensionController {
    type V = Set<Seq<char>>;

    closed spec fn view(&self) -> Set<Seq<char>> {
        Set::new(|key: Seq<char>| holds(self.suspended_hpas@, key))
    }
}

fn make_key(namespace: &str, hpa_name: &str) -> (key: String)
    ensures
        key@ == suspension_key(namespace@, hpa_name@),
{
    String::from_str(namespace).concat("/").concat(hpa_name)
}

impl HPASuspensionController {
    /// A controller with no autoscaler suspended.
    pub fn new() -> (controller: HPASuspensionController)
        ensures
            controller@ == Set::<Seq<char>>::empty(),
    {
        let controller = HPASuspensionController { suspended_hpas: Vec::new() };
        assert(controller@ =~= Set::<Seq<char>>::empty());
        controller
    }

    /// Whether the autoscaler `hpa_name` of `namespace` is suspended.
    pub fn is_suspended(&self, namespace: &str, hpa_name: &str) -> (suspended: bool)
        ensures
            suspended == self@.contains(suspension_key(namespace@, hpa_name@)),
    {
        let key = make_key(namespace, hpa_name);
        let mut i: usize = 0;
        while i < self.suspended_hpas.len()
            invariant
                i <= self.suspended_hpas.len(),
                key@ == suspension_key(namespace@, hpa_name@),
                forall|k: int| 0 <= k < i ==> (#[trigger] self.suspended_hpas@[k])@ != key@,
            decreases self.suspended_hpas.len() - i,
        {
            if same_text(self.suspended_hpas[i].as_str(), key.as_str()) {
                assert(self.suspended_hpas@[i as int]@ == key@);
                assert(holds(self.suspended_hpas@, key@));
                return true;
            }
            i += 1;
        }
        false
    }

    fn suspend(&mut self, key: String)
        ensures
            final(self)@ == old(self)@.insert(key@),
    {
        proof {
            lemma_holds_push(self.suspended_hpas@, key);
        }
        self.suspended_hpas.push(key);
        assert(self@ =~= old(self)@.insert(key@));
    }

    fn resume(&mut self, key: &str)
        ensures
            final(self)@ == old(self)@.remove(key@),
    {
        let ghost before = self.suspended_hpas@;
        let mut kept: Vec<String> = Vec::new();
        let mut i: usize = 0;
        while i < self.suspended_hpas.len()
            invariant
                i <= self.suspended_hpas.len(),
                before == self.suspended_hpas@,
                forall|x: Seq<char>|
                    #[trigger] holds(kept@, x) == (holds(before.subrange(0, i as int), x) && x
                        != key@),
            decreases self.suspended_hpas.len() - i,
        {
            proof {
                assert(before.subrange(0, i as int + 1) =~= before.subrange(0, i as int).push(
                    before[i as int],
                ));
                lemma_holds_push(before.subrange(0, i as int), before[i as int]);
            }
            if !same_text(self.suspended_hpas[i].as_str(), key) {
                let item = self.suspended_hpas[i].clone();
                proof {
                    lemma_holds_push(kept@, item);
                }
                kept.push(item);
            }
            i += 1;
        }
        assert(before.subrange(0, i as int) =~= before);
        self.suspended_hpas = kept;
        assert(self@ =~= old(self)@.remove(key@));
    }

    /// Concludes the removal of the autoscaler `hpa_name` of `namespace`,
    /// given what the cluster answered. A missing autoscaler is no error and
    /// leaves nothing to keep. One that was found and deleted is remembered
    /// as suspended, and its settings are returned.
    pub fn delete_hpa(&mut self, namespace: &str, hpa_name: &str, outcome: &DeleteOutcome) -> (kept:
        Result<Option<HPAConfig>, HpaError>)
        ensures
            match *outcome {
                DeleteOutcome::Missing => kept matches Ok(None) && final(self)@ == old(self)@,
                DeleteOutcome::Found { spec, deleted } => if deleted {
                    &&& kept matches Ok(Some(config))
                    &&& config@ == captured(spec)
                    &&& final(self)@ == old(self)@.insert(suspension_key(namespace@, hpa_name@))
                } else {
                    kept matches Err(HpaError::DeleteFailed) && final(self)@ == old(self)@
                },
            },
    {
        match outcome {
            DeleteOutcome::Missing => Ok(None),
            DeleteOutcome::Found { spec, deleted } => {
                if !*deleted {
                    return Err(HpaError::DeleteFailed);
                }
                let config = capture_hpa_config(spec);
                self.suspend(make_key(namespace, hpa_name));
                Ok(Some(config))
            },
        }
    }

    /// Concludes the recreation of the autoscaler `hpa_name` of `namespace`,
    /// given what the cluster answered: once the new autoscaler is in place it
    /// is no longer suspended.
    pub fn recreate_hpa(&mut self, namespace: &str, hpa_name: &str, outcome: RecreateOutcome) -> (done:
        Result<(), HpaError>)
        ensures
            match outcome {
                RecreateOutcome::StaleNotDeleted => done == Err::<(), HpaError>(
                    HpaError::DeleteFailed,
                ) && final(self)@ == old(self)@,
                RecreateOutcome::NotCreated => done == Err::<(), HpaError>(HpaError::CreateFailed)
                    && final(self)@ == old(self)@,
                RecreateOutcome::Created => done == Ok::<(), HpaError>(()) && final(self)@ == old(
                    self,
                )@.remove(suspension_key(namespace@, hpa_name@)),
            },
    {
        match outcome {
            RecreateOutcome::StaleNotDeleted => Err(HpaError::DeleteFailed),
            RecreateOutcome::NotCreated => Err(HpaError::CreateFailed),
            RecreateOutcome::Created => {
                let key = make_key(namespace, hpa_name);
                self.resume(key.as_str());
                Ok(())
            },
        }
    }

    /// A copy of the service at `service_ip` where its autoscaler is due
    /// for removal: the service manages one that has a name and is in place.
    pub fn autoscaler_to_delete(&self, services: &Registry, service_ip: &str) -> (due: Option<
        ServiceData,
    >)
        ensures
            data_of(due) == removal_due(lookup(services@, service_ip@)),
    {
        match services.get(service_ip) {
            Some(data) => if data.hpa_enabled && !data.hpa_deleted && data.hpa_name.is_some() {
                Some(data)
            } else {
                None
            },
            None => None,
        }
    }

    /// Records in the registry that the autoscaler of `service_ip` was
    /// removed, with the settings kept of it; `service` is the copy on which
    /// the removal was decided. A failed removal changes nothing and is
    /// handed on.
    pub fn delete_hpa_for_service(
        &self,
        services: &mut Registry,
        service_ip: &str,
        service: ServiceData,
        kept: Result<Option<HPAConfig>, HpaError>,
    ) -> (done: Result<(), HpaError>)
        ensures
            match kept {
                Ok(config) => done is Ok && final(services)@ == upsert(
                    old(services)@,
                    service_ip@,
                    suspended_data(service@, config_of(config)),
                ),
                Err(e) => done == Err::<(), HpaError>(e) && final(services)@ == old(services)@,
            },
    {
        match kept {
            Ok(config) => {
                let mut data = service;
                data.hpa_deleted = true;
                match config {
                    Some(c) => {
                        data.hpa_config = Some(c);
                    },
                    None => {},
                }
                services.insert(String::from_str(service_ip), data);
                Ok(())
            },
            Err(e) => Err(e),
        }
    }

    /// A copy of the service at `service_ip` where its autoscaler can be
    /// recreated: the service manages one and has its name and settings.
    pub fn autoscaler_to_recreate(&self, services: &Registry, service_ip: &str) -> (due: Option<
        ServiceData,
    >)
        ensures
            data_of(due) == recreation_due(lookup(services@, service_ip@)),
    {
        match services.get(service_ip) {
            Some(data) => if data.hpa_enabled && data.hpa_name.is_some()
                && data.hpa_config.is_some() {
                Some(data)
            } else {
                None
            },
            None => None,
        }
    }

    /// Records in the registry that the autoscaler of `service_ip` is in
    /// place again; `service` is the copy on which the recreation was
    /// decided. A failed recreation changes nothing and is handed on.
    pub fn recreate_hpa_for_service(
        &self,
        services: &mut Registry,
        service_ip: &str,
        service: ServiceData,
        recreated: Result<(), HpaError>,
    ) -> (done: Result<(), HpaError>)
        ensures
            match recreated {
                Ok(_) => done is Ok && final(services)@ == upsert(
                    old(services)@,
                    service_ip@,
                    resumed_data(service@),
                ),
                Err(e) => done == Err::<(), HpaError>(e) && final(services)@ == old(services)@,
            },
    {
        match recreated {
            Ok(_) => {
                let mut data = service;
                data.hpa_deleted = false;
                services.insert(String::from_str(service_ip), data);
                Ok(())
            },
            Err(e) => Err(e),
        }
    }
}

/// The service whose autoscaler is due for removal, if it is.
pub open spec fn removal_due(found: Option<ServiceDataView>) -> Option<ServiceDataView> {
    match found {
        Some(d) => if d.hpa_enabled && !d.hpa_deleted && d.hpa_name is Some {
            Some(d)
        } else {
            None
        },
        None => None,
    }
}

/// The service whose autoscaler can be recreated, if it can.
pub open spec fn recreation_due(found: Option<ServiceDataView>) -> Option<ServiceDataView> {
    match found {
        Some(d) => if d.hpa_enabled && d.hpa_name is Some && d.hpa_config is Some {
            Some(d)
        } else {
            None
        },
        None => None,
    }
}

/// A service's data once its autoscaler is removed: marked as deleted, with
/// the settings kept of the autoscaler where there were any.
pub open spec fn suspended_data(data: ServiceDataView, kept: Option<HPAConfigView>) -> ServiceDataView {
    ServiceDataView {
        hpa_deleted: true,
        hpa_config: match kept {
            Some(c) => Some(c),
            None => data.hpa_config,
        },
        ..data
    }
}

/// A service's data once its autoscaler is in place again.
pub open spec fn resumed_data(data: ServiceDataView) -> ServiceDataView {
    ServiceDataView { hpa_deleted: false, ..data }
}

/// A service whose autoscaler is marked as deleted has the autoscaler's
/// settings.
pub proof fn lemma_deleted_has_config(data: ServiceDataView)
    requires
        data.wf(),
        data.hpa_deleted,
    ensures
        data.hpa_config is Some,
{
}

/// Removing the autoscaler of a service that is due for it, and putting it
/// back, keep the service's autoscaler fields in agreement.
pub proof fn lemma_suspension_keeps_wf(data: ServiceDataView, kept: Option<HPAConfigView>)
    requires
        data.wf(),
    ensures
        removal_due(Some(data)) is Some ==> suspended_data(data, kept).wf(),
        resumed_data(data).wf(),
{
}

} // verus!
