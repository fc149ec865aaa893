//! The workload reconciler: reading a service's annotations, deciding what a
//! service or workload event asks for, and entering services in the registry.

use vstd::prelude::*;
use crate::models::{
    HPAConfig, HPAConfigView, ServiceData, ServiceDataView, WorkloadKind, WorkloadReference,
    WorkloadReferenceView, clone_text, kind_of, text_of, workload_kind,
};
use crate::registry::{EntryView, Registry, has_key, key_index, upsert};
use crate::text::{
    decimal_i32, decimal_i64, from_chars, parse_i32, parse_i64, same_text, split, split_bounds,
    to_chars, trim, trim_bounds,
};

verus! {

/// One annotation of a service.
#[derive(Debug, PartialEq, Eq)]
pub struct Annotation {
    pub key: String,
    pub value: String,
}

impl Clone for Annotation {
    fn clone(&self) -> (copy: Self)
        ensures
            copy.key@ == self.key@,
            copy.value@ == self.value@,
    {
        Annotation { key: self.key.clone(), value: self.value.clone() }
    }
}

/// What the reconciler reads of a service object.
#[derive(Debug, PartialEq, Eq)]
pub struct ServiceInfo {
    /// The service's name, or the empty string where it has none.
    pub name: String,
    pub namespace: Option<String>,
    /// Whether the object carries a spec.
    pub has_spec: bool,
    /// The cluster address from the spec.
    pub cluster_ip: Option<String>,
    pub annotations: Vec<Annotation>,
}

/// A service object over character sequences.
pub struct ServiceInfoView {
    pub name: Seq<char>,
    pub namespace: Option<Seq<char>>,
    pub has_spec: bool,
    pub cluster_ip: Option<Seq<char>>,
    pub annotations: Seq<(Seq<char>, Seq<char>)>,
}

/// The annotations as pairs of key and value.
pub open spec fn pairs_of(annotations: Seq<Annotation>) -> Seq<(Seq<char>, Seq<char>)> {
    Seq::new(annotations.len(), |i: int| (annotations[i].key@, annotations[i].value@))
}

impl View for ServiceInfo {
    type V = ServiceInfoView;

    open spec fn view(&self) -> ServiceInfoView {
        ServiceInfoView {
            name: self.name@,
            namespace: text_of(self.namespace),
            has_spec: self.has_spec,
            cluster_ip: text_of(self.cluster_ip),
            annotations: pairs_of(self.annotations@),
        }
    }
}

impl Clone for ServiceInfo {
    fn clone(&self) -> (copy: Self)
        ensures
            copy@ == self@,
    {
        let mut annotations: Vec<Annotation> = Vec::new();
        let mut i: usize = 0;
        while i < self.annotations.len()
            invariant
                i <= self.annotations.len(),
                annotations.len() == i,
                forall|k: int|
                    0 <= k < i ==> (#[trigger] annotations@[k]).key@ == self.annotations@[k].key@
                        && annotations@[k].value@ == self.annotations@[k].value@,
            decreases self.annotations.len() - i,
        {
            annotations.push(self.annotations[i].clone());
            i += 1;
        }
        assert(pairs_of(annotations@) =~= pairs_of(self.annotations@));
        ServiceInfo {
            name: self.name.clone(),
            namespace: clone_text(&self.namespace),
            has_spec: self.has_spec,
            cluster_ip: clone_text(&self.cluster_ip),
            annotations,
        }
    }
}

/// The value of the first annotation with the key `key`.
pub open spec fn annotation_of(annotations: Seq<(Seq<char>, Seq<char>)>, key: Seq<char>) -> Option<
    Seq<char>,
>
    decreases annotations.len(),
{
    if annotations.len() == 0 {
        None
    } else if annotations[0].0 == key {
        Some(annotations[0].1)
    } else {
        annotation_of(annotations.drop_first(), key)
    }
}

/// Looks an annotation up by its key.
pub fn find_annotation<'a>(service: &'a ServiceInfo, key: &str) -> (value: Option<&'a String>)
    ensures
        match value {
            Some(v) => annotation_of(service@.annotations, key@) == Some(v@),
            None => annotation_of(service@.annotations, key@) is None,
        },
{
    let ghost all = service@.annotations;
    let n = service.annotations.len();
    let mut i: usize = 0;
    assert(all.subrange(0, n as int) =~= all);
    while i < n
        invariant
            i <= n,
            n == service.annotations@.len(),
            all == service@.annotations,
            annotation_of(all, key@) == annotation_of(all.subrange(i as int, n as int), key@),
        decreases n - i,
    {
        let ghost rest = all.subrange(i as int, n as int);
        assert(rest[0] == all[i as int]);
        assert(rest.drop_first() =~= all.subrange(i as int + 1, n as int));
        if same_text(service.annotations[i].key.as_str(), key) {
            return Some(&service.annotations[i].value);
        }
        i += 1;
    }
    None
}

/// The trimmed pieces of `parts` that are not empty, in order.
pub open spec fn trimmed_nonempty(parts: Seq<Seq<char>>) -> Seq<Seq<char>>
    decreases parts.len(),
{
    if parts.len() == 0 {
        Seq::empty()
    } else {
        let front = trimmed_nonempty(parts.drop_last());
        let item = trim(parts.last());
        if item.len() == 0 {
            front
        } else {
            front.push(item)
        }
    }
}

/// The items of a comma-separated list: each trimmed, empty ones left out.
pub open spec fn list_items(text: Seq<char>) -> Seq<Seq<char>> {
    trimmed_nonempty(split(text, ','))
}

/// Reads a comma-separated list.
pub fn parse_list(text: &str) -> (items: Vec<String>)
    ensures
        items.deep_view() == list_items(text@),
{
    let chars = to_chars(text);
    let pieces = split_bounds(&chars, ',');
    let ghost parts = split(chars@, ',');
    let mut items: Vec<String> = Vec::new();
    let mut i: usize = 0;
    assert(items.deep_view() =~= trimmed_nonempty(parts.subrange(0, 0)));
    while i < pieces.len()
        invariant
            i <= pieces.len(),
            parts == split(chars@, ','),
            pieces@.len() == parts.len(),
            forall|k: int|
                0 <= k < pieces@.len() ==> #[trigger] pieces@[k].0 <= pieces@[k].1 <= chars@.len(),
            forall|k: int|
                0 <= k < pieces@.len() ==> chars@.subrange(
                    pieces@[k].0 as int,
                    pieces@[k].1 as int,
                ) == #[trigger] parts[k],
            items.deep_view() == trimmed_nonempty(parts.subrange(0, i as int)),
        decreases pieces.len() - i,
    {
        let (from, to) = pieces[i];
        assert(pieces@[i as int].0 <= pieces@[i as int].1 <= chars@.len());
        assert(chars@.subrange(from as int, to as int) == parts[i as int]);
        let (a, b) = trim_bounds(&chars, from, to);
        proof {
            let done = parts.subrange(0, i as int + 1);
            assert(done.drop_last() =~= parts.subrange(0, i as int));
            assert(done.last() == parts[i as int]);
        }
        if a < b {
            let ghost before = items.deep_view();
            let item = from_chars(&chars, a, b);
            items.push(item);
            assert(items.deep_view() =~= before.push(trim(parts[i as int])));
        }
        i += 1;
    }
    assert(parts.subrange(0, i as int) =~= parts);
    items
}

/// The list that an annotation holds; empty where the annotation is absent.
pub open spec fn annotated_list(annotations: Seq<(Seq<char>, Seq<char>)>, key: Seq<char>) -> Seq<
    Seq<char>,
> {
    match annotation_of(annotations, key) {
        Some(text) => list_items(text),
        None => Seq::empty(),
    }
}

fn parse_list_annotation(service: &ServiceInfo, key: &str) -> (items: Vec<String>)
    ensures
        items.deep_view() == annotated_list(service@.annotations, key@),
{
    match find_annotation(service, key) {
        Some(text) => parse_list(text.as_str()),
        None => {
            let items: Vec<String> = Vec::new();
            assert(items.deep_view() =~= Seq::<Seq<char>>::empty());
            items
        },
    }
}

/// The services that `service` calls, from `scale-to-zero/dependencies`.
pub fn parse_dependencies_annotation(service: &ServiceInfo) -> (items: Vec<String>)
    ensures
        items.deep_view() == annotated_list(service@.annotations, "scale-to-zero/dependencies"@),
{
    parse_list_annotation(service, "scale-to-zero/dependencies")
}

/// The services that call `service`, from `scale-to-zero/dependents`.
pub fn parse_dependents_annotation(service: &ServiceInfo) -> (items: Vec<String>)
    ensures
        items.deep_view() == annotated_list(service@.annotations, "scale-to-zero/dependents"@),
{
    parse_list_annotation(service, "scale-to-zero/dependents")
}

/// The priority that follows from a service's place among its peers: 10 and
/// 5 for each dependency where it has any; else 90 and 5 for each dependent
/// where it has any; else 50. Held to the largest `i32`.
pub open spec fn auto_priority(dependencies: nat, dependents: nat) -> int {
    let raw = if dependencies > 0 {
        10 + 5 * dependencies
    } else if dependents > 0 {
        90 + 5 * dependents
    } else {
        50
    };
    if raw > i32::MAX {
        i32::MAX as int
    } else {
        raw as int
    }
}

/// The number that an annotation holds, where it is present and reads as an
/// `i32`.
pub open spec fn annotated_i32(annotations: Seq<(Seq<char>, Seq<char>)>, key: Seq<char>) -> Option<
    i32,
> {
    match annotation_of(annotations, key) {
        Some(text) => decimal_i32(text),
        None => None,
    }
}

/// A service's scaling priority: the number in `scale-to-zero/scaling-priority`
/// where that reads as one, else the priority that follows from its
/// dependencies and dependents.
pub open spec fn scaling_priority_of(annotations: Seq<(Seq<char>, Seq<char>)>) -> int {
    match annotated_i32(annotations, "scale-to-zero/scaling-priority"@) {
        Some(priority) => priority as int,
        None => auto_priority(
            annotated_list(annotations, "scale-to-zero/dependencies"@).len(),
            annotated_list(annotations, "scale-to-zero/dependents"@).len(),
        ),
    }
}

fn parse_i32_annotation(service: &ServiceInfo, key: &str) -> (value: Option<i32>)
    ensures
        value == annotated_i32(service@.annotations, key@),
{
    match find_annotation(service, key) {
        Some(text) => parse_i32(text.as_str()),
        None => None,
    }
}

fn scaled_count(base: i32, count: usize) -> (priority: i32)
    requires
        0 <= base <= 100,
    ensures
        priority == if base + 5 * count > i32::MAX {
            i32::MAX as int
        } else {
            base + 5 * count
        },
{
    if count > 1_000_000_000 {
        return i32::MAX;
    }
    let raw: i64 = base as i64 + 5 * (count as i64);
    if raw > i32::MAX as i64 {
        i32::MAX
    } else {
        raw as i32
    }
}

/// Computes a service's scaling priority from its annotations alone.
pub fn calculate_scaling_priority(service: &ServiceInfo) -> (priority: i32)
    ensures
        priority == scaling_priority_of(service@.annotations),
{
    match parse_i32_annotation(service, "scale-to-zero/scaling-priority") {
        Some(priority) => {
            return priority;
        },
        None => {},
    }
    let dependencies = parse_dependencies_annotation(service);
    let dependents = parse_dependents_annotation(service);
    assert(dependencies.deep_view().len() == dependencies.len());
    assert(dependents.deep_view().len() == dependents.len());
    if dependencies.len() > 0 {
        scaled_count(10, dependencies.len())
    } else if dependents.len() > 0 {
        scaled_count(90, dependents.len())
    } else {
        50
    }
}

/// Two services with the same annotations have the same scaling priority.
pub proof fn lemma_priority_depends_on_annotations_only(a: ServiceInfoView, b: ServiceInfoView)
    requires
        a.annotations == b.annotations,
    ensures
        scaling_priority_of(a.annotations) == scaling_priority_of(b.annotations),
{
}

/// Why a service event asks for nothing.
#[derive(Debug, Clone, Copy, PartialEq, Eq, Structural)]
pub enum SkipReason {
    /// The service lacks the reference or the scale-down-time annotation.
    NotAnnotated,
    /// The reference is neither `kind/name` nor `kind/namespace/name`.
    InvalidReference,
    /// The reference names a kind of workload that cannot be scaled.
    UnknownWorkloadType,
}

/// Why an event could not be handled.
#[derive(Debug, Clone, Copy, PartialEq, Eq, Structural)]
pub enum WatchError {
    /// The scale-down-time annotation is no number of seconds.
    InvalidScaleDownTime,
    /// The service object has no spec.
    MissingServiceSpec,
    /// The service has no cluster address.
    MissingClusterIp,
    /// The workload has no namespace.
    MissingNamespace,
    /// The workload has no replica count.
    MissingReplicas,
}

/// The workload to fetch for a service, and what is already known of the
/// service.
#[derive(Debug, PartialEq, Eq)]
pub struct WorkloadLookup {
    pub kind: WorkloadKind,
    pub name: String,
    pub namespace: String,
    pub scale_down_time: i64,
    pub service_ip: String,
}

/// A workload lookup over character sequences.
pub struct WorkloadLookupView {
    pub kind: WorkloadKind,
    pub name: Seq<char>,
    pub namespace: Seq<char>,
    pub scale_down_time: i64,
    pub service_ip: Seq<char>,
}

impl View for WorkloadLookup {
    type V = WorkloadLookupView;

    open spec fn view(&self) -> WorkloadLookupView {
        WorkloadLookupView {
            kind: self.kind,
            name: self.name@,
            namespace: self.namespace@,
            scale_down_time: self.scale_down_time,
            service_ip: self.service_ip@,
        }
    }
}

/// What a service event asks for.
#[derive(Debug, PartialEq, Eq)]
pub enum ServiceDecision {
    /// Nothing: the service is not tracked.
    Skip(SkipReason),
    /// Fetch the workload, then enter the service in the registry.
    Resolve(WorkloadLookup),
}

/// A decision over character sequences.
pub enum ServiceDecisionView {
    Skip(SkipReason),
    Resolve(WorkloadLookupView),
}

impl View for ServiceDecision {
    type V = ServiceDecisionView;

    open spec fn view(&self) -> ServiceDecisionView {
        match self {
            ServiceDecision::Skip(reason) => ServiceDecisionView::Skip(*reason),
            ServiceDecision::Resolve(lookup) => ServiceDecisionView::Resolve(lookup@),
        }
    }
}

/// The view of the outcome of a service event.
pub open spec fn outcome_view(outcome: Result<ServiceDecision, WatchError>) -> Result<
    ServiceDecisionView,
    WatchError,
> {
    match outcome {
        Ok(decision) => Ok(decision@),
        Err(e) => Err(e),
    }
}

/// Kind, name and namespace that a reference gives: `kind/name` names a
/// workload in the service's own namespace (the empty one where the service
/// has none), `kind/namespace/name` one in the namespace given.
pub open spec fn reference_parts(reference: Seq<char>, own_namespace: Option<Seq<char>>) -> Option<
    (Seq<char>, Seq<char>, Seq<char>),
> {
    let parts = split(reference, '/');
    if parts.len() == 2 {
        Some(
            (
                parts[0],
                parts[1],
                match own_namespace {
                    Some(ns) => ns,
                    None => Seq::empty(),
                },
            ),
        )
    } else if parts.len() == 3 {
        Some((parts[0], parts[2], parts[1]))
    } else {
        None
    }
}

/// What the event of `service` asks for. A service without both annotations
/// is skipped, and so is one whose reference is malformed. A scale-down time
/// that is no number, a missing spec and a missing cluster address are
/// errors. A reference to a kind that cannot be scaled is skipped.
pub open spec fn decide(service: ServiceInfoView) -> Result<ServiceDecisionView, WatchError> {
    let reference = annotation_of(service.annotations, "scale-to-zero/reference"@);
    let idle = annotation_of(service.annotations, "scale-to-zero/scale-down-time"@);
    if reference is None || idle is None {
        Ok(ServiceDecisionView::Skip(SkipReason::NotAnnotated))
    } else {
        match reference_parts(reference->0, service.namespace) {
            None => Ok(ServiceDecisionView::Skip(SkipReason::InvalidReference)),
            Some(parts) => match decimal_i64(idle->0) {
                None => Err(WatchError::InvalidScaleDownTime),
                Some(scale_down_time) => if !service.has_spec {
                    Err(WatchError::MissingServiceSpec)
                } else {
                    match service.cluster_ip {
                        None => Err(WatchError::MissingClusterIp),
                        Some(service_ip) => match kind_of(parts.0) {
                            None => Ok(ServiceDecisionView::Skip(SkipReason::UnknownWorkloadType)),
                            Some(kind) => Ok(
                                ServiceDecisionView::Resolve(
                                    WorkloadLookupView {
                                        kind,
                                        name: parts.1,
                                        namespace: parts.2,
                                        scale_down_time,
                                        service_ip,
                                    },
                                ),
                            ),
                        },
                    }
                },
            },
        }
    }
}

/// Reads a workload reference into kind, name and namespace.
pub fn parse_reference(reference: &str, own_namespace: &Option<String>) -> (parts: Option<
    (String, String, String),
>)
    ensures
        match parts {
            Some(p) => reference_parts(reference@, text_of(*own_namespace)) == Some(
                (p.0@, p.1@, p.2@),
            ),
            None => reference_parts(reference@, text_of(*own_namespace)) is None,
        },
{
    let chars = to_chars(reference);
    let pieces = split_bounds(&chars, '/');
    let ghost parts = split(chars@, '/');
    if pieces.len() == 2 {
        assert(parts[0] == chars@.subrange(pieces@[0].0 as int, pieces@[0].1 as int));
        assert(parts[1] == chars@.subrange(pieces@[1].0 as int, pieces@[1].1 as int));
        let kind = from_chars(&chars, pieces[0].0, pieces[0].1);
        let name = from_chars(&chars, pieces[1].0, pieces[1].1);
        let namespace = match own_namespace {
            Some(ns) => ns.clone(),
            None => String::new(),
        };
        Some((kind, name, namespace))
    } else if pieces.len() == 3 {
        assert(parts[0] == chars@.subrange(pieces@[0].0 as int, pieces@[0].1 as int));
        assert(parts[1] == chars@.subrange(pieces@[1].0 as int, pieces@[1].1 as int));
        assert(parts[2] == chars@.subrange(pieces@[2].0 as int, pieces@[2].1 as int));
        let kind = from_chars(&chars, pieces[0].0, pieces[0].1);
        let namespace = from_chars(&chars, pieces[1].0, pieces[1].1);
        let name = from_chars(&chars, pieces[2].0, pieces[2].1);
        Some((kind, name, namespace))
    } else {
        None
    }
}

/// Decides what the event of a service asks for.
pub fn service_event(service: &ServiceInfo) -> (outcome: Result<ServiceDecision, WatchError>)
    ensures
        outcome_view(outcome) == decide(service@),
{
    let reference = match find_annotation(service, "scale-to-zero/reference") {
        Some(r) => r,
        None => {
            return Ok(ServiceDecision::Skip(SkipReason::NotAnnotated));
        },
    };
    let idle = match find_annotation(service, "scale-to-zero/scale-down-time") {
        Some(t) => t,
        None => {
            return Ok(ServiceDecision::Skip(SkipReason::NotAnnotated));
        },
    };
    let (kind_name, name, namespace) = match parse_reference(
        reference.as_str(),
        &service.namespace,
    ) {
        Some(parts) => parts,
        None => {
            return Ok(ServiceDecision::Skip(SkipReason::InvalidReference));
        },
    };
    let scale_down_time = match parse_i64(idle.as_str()) {
        Some(t) => t,
        None => {
            return Err(WatchError::InvalidScaleDownTime);
        },
    };
    if !service.has_spec {
        return Err(WatchError::MissingServiceSpec);
    }
    let service_ip = match &service.cluster_ip {
        Some(ip) => ip.clone(),
        None => {
            return Err(WatchError::MissingClusterIp);
        },
    };
    match workload_kind(kind_name.as_str()) {
        Some(kind) => Ok(
            ServiceDecision::Resolve(
                WorkloadLookup { kind, name, namespace, scale_down_time, service_ip },
            ),
        ),
        None => Ok(ServiceDecision::Skip(SkipReason::UnknownWorkloadType)),
    }
}

/// A workload and the service that it backs.
pub struct Binding {
    pub workload: WorkloadReference,
    pub service: ServiceInfo,
}

/// The remembered bindings from workload to service. A workload has at most
/// one service: the first binding found for it counts.
pub struct WorkloadBindings {
    pub entries: Vec<Binding>,
}

/// The bindings as pairs of workload and service.
pub open spec fn bindings_of(entries: Seq<Binding>) -> Seq<
    (WorkloadReferenceView, ServiceInfoView),
> {
    Seq::new(entries.len(), |i: int| (entries[i].workload@, entries[i].service@))
}

impl View for WorkloadBindings {
    type V = Seq<(WorkloadReferenceView, ServiceInfoView)>;

    open spec fn view(&self) -> Seq<(WorkloadReferenceView, ServiceInfoView)> {
        bindings_of(self.entries@)
    }
}

/// The service bound to `workload`.
pub open spec fn bound_service(
    bindings: Seq<(WorkloadReferenceView, ServiceInfoView)>,
    workload: WorkloadReferenceView,
) -> Option<ServiceInfoView>
    decreases bindings.len(),
{
    if bindings.len() == 0 {
        None
    } else if bindings[0].0 == workload {
        Some(bindings[0].1)
    } else {
        bound_service(bindings.drop_first(), workload)
    }
}

/// The bindings after `workload` is bound to `service`: its binding is
/// replaced where it has one, else added at the end.
pub open spec fn bind(
    bindings: Seq<(WorkloadReferenceView, ServiceInfoView)>,
    workload: WorkloadReferenceView,
    service: ServiceInfoView,
) -> Seq<(WorkloadReferenceView, ServiceInfoView)>
    decreases bindings.len(),
{
    if bindings.len() == 0 {
        seq![(workload, service)]
    } else if bindings[0].0 == workload {
        seq![(workload, service)] + bindings.drop_first()
    } else {
        seq![bindings[0]] + bind(bindings.drop_first(), workload, service)
    }
}

/// Binding a workload changes what is bound to it and to no other.
pub proof fn lemma_bind(
    bindings: Seq<(WorkloadReferenceView, ServiceInfoView)>,
    workload: WorkloadReferenceView,
    service: ServiceInfoView,
    other: WorkloadReferenceView,
)
    ensures
        bound_service(bind(bindings, workload, service), workload) == Some(service),
        other != workload ==> bound_service(bind(bindings, workload, service), other)
            == bound_service(bindings, other),
    decreases bindings.len(),
{
    let after = bind(bindings, workload, service);
    if bindings.len() == 0 {
        assert(after.drop_first() =~= bindings);
    } else if bindings[0].0 == workload {
        assert(after.drop_first() =~= bindings.drop_first());
    } else {
        lemma_bind(bindings.drop_first(), workload, service, other);
        assert(after.drop_first() =~= bind(bindings.drop_first(), workload, service));
    }
}

/// With `i` the first position bound to `workload`, or the length where
/// there is none, binding replaces at `i` or appends.
pub proof fn lemma_bind_at(
    bindings: Seq<(WorkloadReferenceView, ServiceInfoView)>,
    workload: WorkloadReferenceView,
    service: ServiceInfoView,
    i: int,
)
    requires
        0 <= i <= bindings.len(),
        forall|k: int| 0 <= k < i ==> (#[trigger] bindings[k]).0 != workload,
        i < bindings.len() ==> bindings[i].0 == workload,
    ensures
        i < bindings.len() ==> bind(bindings, workload, service) == bindings.update(
            i,
            (workload, service),
        ) && bound_service(bindings, workload) == Some(bindings[i].1),
        i == bindings.len() ==> bind(bindings, workload, service) == bindings.push(
            (workload, service),
        ) && bound_service(bindings, workload) is None,
    decreases bindings.len(),
{
    if bindings.len() == 0 {
        assert(bind(bindings, workload, service) =~= bindings.push((workload, service)));
    } else if i == 0 {
        assert(bind(bindings, workload, service) =~= bindings.update(0, (workload, service)));
    } else {
        let rest = bindings.drop_first();
        assert(bindings[0].0 != workload);
        assert forall|k: int| 0 <= k < i - 1 implies (#[trigger] rest[k]).0 != workload by {
            assert(rest[k] == bindings[k + 1]);
        }
        lemma_bind_at(rest, workload, service, i - 1);
        if i < bindings.len() {
            assert(bind(bindings, workload, service) =~= bindings.update(i, (workload, service)));
        } else {
            assert(bind(bindings, workload, service) =~= bindings.push((workload, service)));
        }
    }
}

impl WorkloadBindings {
    /// No bindings.
    pub fn new() -> (bindings: WorkloadBindings)
        ensures
            bindings@ == Seq::<(WorkloadReferenceView, ServiceInfoView)>::empty(),
    {
        let bindings = WorkloadBindings { entries: Vec::new() };
        assert(bindings@ =~= Seq::<(WorkloadReferenceView, ServiceInfoView)>::empty());
        bindings
    }

    /// The first position bound to the workload, or the number of bindings.
    fn find(&self, kind: &str, name: &str, namespace: &str) -> (i: usize)
        ensures
            i <= self@.len(),
            forall|k: int|
                0 <= k < i ==> (#[trigger] self@[k]).0 != (WorkloadReferenceView {
                    kind: kind@,
                    name: name@,
                    namespace: namespace@,
                }),
            i < self@.len() ==> self@[i as int].0 == (WorkloadReferenceView {
                kind: kind@,
                name: name@,
                namespace: namespace@,
            }),
    {
        let mut i: usize = 0;
        while i < self.entries.len()
            invariant
                i <= self.entries.len(),
                forall|k: int|
                    0 <= k < i ==> (#[trigger] self@[k]).0 != (WorkloadReferenceView {
                        kind: kind@,
                        name: name@,
                        namespace: namespace@,
                    }),
            decreases self.entries.len() - i,
        {
            let w = &self.entries[i].workload;
            assert(self@[i as int].0 == w@);
            if same_text(w.kind.as_str(), kind) && same_text(w.name.as_str(), name) && same_text(
                w.namespace.as_str(),
                namespace,
            ) {
                return i;
            }
            i += 1;
        }
        i
    }

    /// The service bound to `workload`.
    pub fn get(&self, workload: &WorkloadReference) -> (service: Option<&ServiceInfo>)
        ensures
            match service {
                Some(s) => bound_service(self@, workload@) == Some(s@),
                None => bound_service(self@, workload@) is None,
            },
    {
        let i = self.find(
            workload.kind.as_str(),
            workload.name.as_str(),
            workload.namespace.as_str(),
        );
        proof {
            lemma_bind_at(self@, workload@, self@[0].1, i as int);
        }
        if i < self.entries.len() {
            Some(&self.entries[i].service)
        } else {
            None
        }
    }

    /// Binds `workload` to `service`.
    pub fn insert(&mut self, workload: WorkloadReference, service: ServiceInfo)
        ensures
            final(self)@ == bind(old(self)@, workload@, service@),
    {
        let i = self.find(
            workload.kind.as_str(),
            workload.name.as_str(),
            workload.namespace.as_str(),
        );
        proof {
            lemma_bind_at(self@, workload@, service@, i as int);
        }
        let ghost before = self@;
        let ghost pair = (workload@, service@);
        if i < self.entries.len() {
            self.entries.set(i, Binding { workload, service });
            assert(self@ =~= before.update(i as int, pair));
        } else {
            self.entries.push(Binding { workload, service });
            assert(self@ =~= before.push(pair));
        }
    }
}

/// Whether a service asks for its autoscaler to be managed:
/// `scale-to-zero/hpa-enabled` is `true`.
pub open spec fn autoscaler_enabled(annotations: Seq<(Seq<char>, Seq<char>)>) -> bool {
    annotation_of(annotations, "scale-to-zero/hpa-enabled"@) == Some("true"@)
}

/// The name of a service's autoscaler: `scale-to-zero/hpa-name`, or the
/// service's name followed by `-hpa`.
pub open spec fn autoscaler_name(service: ServiceInfoView) -> Seq<char> {
    match annotation_of(service.annotations, "scale-to-zero/hpa-name"@) {
        Some(name) => name,
        None => service.name + "-hpa"@,
    }
}

/// The autoscaler settings that a service's annotations give: the bounds and
/// the CPU target where they read as numbers, at most 5 replicas where no
/// bound is given, and no custom payloads.
pub open spec fn annotated_config(annotations: Seq<(Seq<char>, Seq<char>)>) -> HPAConfigView {
    HPAConfigView {
        min_replicas: annotated_i32(annotations, "scale-to-zero/min-replicas"@),
        max_replicas: match annotated_i32(annotations, "scale-to-zero/max-replicas"@) {
            Some(max) => max,
            None => 5,
        },
        target_cpu_utilization_percentage: annotated_i32(
            annotations,
            "scale-to-zero/target-cpu-utilization"@,
        ),
        metrics: None,
        behavior: None,
    }
}

/// What the registry holds of a service first seen at `now` with a workload
/// of `replicas` replicas.
pub open spec fn tracked_service(
    service: ServiceInfoView,
    kind: Seq<char>,
    name: Seq<char>,
    namespace: Seq<char>,
    replicas: i32,
    scale_down_time: i64,
    now: i64,
) -> ServiceDataView {
    let enabled = autoscaler_enabled(service.annotations);
    ServiceDataView {
        scale_down_time,
        last_packet_time: now,
        kind,
        name,
        namespace,
        backend_available: replicas >= 1,
        dependencies: annotated_list(service.annotations, "scale-to-zero/dependencies"@),
        dependents: annotated_list(service.annotations, "scale-to-zero/dependents"@),
        hpa_enabled: enabled,
        hpa_name: if enabled {
            Some(autoscaler_name(service))
        } else {
            None
        },
        hpa_deleted: false,
        hpa_config: if enabled {
            Some(annotated_config(service.annotations))
        } else {
            None
        },
        scaling_priority: scaling_priority_of(service.annotations) as i32,
    }
}

/// Builds the registry's data for a service from its annotations.
pub fn track_service(
    service: &ServiceInfo,
    kind: String,
    name: String,
    namespace: String,
    replicas: i32,
    scale_down_time: i64,
    now: i64,
) -> (data: ServiceData)
    ensures
        data@ == tracked_service(service@, kind@, name@, namespace@, replicas, scale_down_time, now),
        data@.wf(),
{
    let dependencies = parse_dependencies_annotation(service);
    let dependents = parse_dependents_annotation(service);
    let scaling_priority = calculate_scaling_priority(service);
    let hpa_enabled = match find_annotation(service, "scale-to-zero/hpa-enabled") {
        Some(v) => same_text(v.as_str(), "true"),
        None => false,
    };
    let hpa_name = if hpa_enabled {
        match find_annotation(service, "scale-to-zero/hpa-name") {
            Some(n) => Some(n.clone()),
            None => Some(service.name.clone().concat("-hpa")),
        }
    } else {
        None
    };
    let hpa_config = if hpa_enabled {
        let max_replicas = match parse_i32_annotation(service, "scale-to-zero/max-replicas") {
            Some(max) => max,
            None => 5,
        };
        Some(
            HPAConfig {
                min_replicas: parse_i32_annotation(service, "scale-to-zero/min-replicas"),
                max_replicas,
                target_cpu_utilization_percentage: parse_i32_annotation(
                    service,
                    "scale-to-zero/target-cpu-utilization",
                ),
                metrics: None,
                behavior: None,
            },
        )
    } else {
        None
    };
    ServiceData {
        scale_down_time,
        last_packet_time: now,
        kind,
        name,
        namespace,
        backend_available: replicas >= 1,
        dependencies,
        dependents,
        hpa_enabled,
        hpa_name,
        hpa_deleted: false,
        hpa_config,
        scaling_priority,
    }
}

/// An autoscaler to create for a service whose workload is up.
pub struct AutoscalerRequest {
    pub service_ip: String,
    pub namespace: String,
    pub hpa_name: String,
    pub workload_name: String,
    pub config: HPAConfig,
}

/// Enters a service in the registry once its workload is known, and binds
/// the workload to it. A workload without a namespace is an error and
/// changes nothing. `last_packet_time` starts at `now`, so that a service
/// just found is not scaled down at once. Returns the autoscaler to create
/// where the service manages one and the workload has a replica.
pub fn update_workload_status(
    kind: String,
    name: String,
    namespace: Option<String>,
    replicas: i32,
    workload_service: &mut WorkloadBindings,
    service: ServiceInfo,
    service_ip: String,
    scale_down_time: i64,
    services: &mut Registry,
    now: i64,
) -> (outcome: Result<Option<AutoscalerRequest>, WatchError>)
    ensures
        namespace is None ==> outcome matches Err(WatchError::MissingNamespace),
        namespace is None ==> final(workload_service)@ == old(workload_service)@,
        namespace is None ==> final(services)@ == old(services)@,
        namespace matches Some(ns) ==> {
            let data = tracked_service(service@, kind@, name@, ns@, replicas, scale_down_time, now);
            &&& final(workload_service)@ == bind(
                old(workload_service)@,
                WorkloadReferenceView { kind: kind@, name: name@, namespace: ns@ },
                service@,
            )
            &&& final(services)@ == upsert(old(services)@, service_ip@, data)
            &&& data.wf()
            &&& outcome matches Ok(request)
            &&& request is Some == (data.hpa_enabled && replicas >= 1)
            &&& request matches Some(r) ==> {
                &&& r.service_ip@ == service_ip@
                &&& r.namespace@ == ns@
                &&& r.workload_name@ == name@
                &&& Some(r.hpa_name@) == data.hpa_name
                &&& Some(r.config@) == data.hpa_config
            }
        },
{
    let namespace = match namespace {
        Some(ns) => ns,
        None => {
            return Err(WatchError::MissingNamespace);
        },
    };
    let data = track_service(
        &service,
        kind.clone(),
        name.clone(),
        namespace.clone(),
        replicas,
        scale_down_time,
        now,
    );
    workload_service.insert(
        WorkloadReference { kind, name: name.clone(), namespace: namespace.clone() },
        service,
    );
    let request = if data.hpa_enabled && replicas >= 1 {
        match (&data.hpa_name, &data.hpa_config) {
            (Some(hpa_name), Some(config)) => Some(
                AutoscalerRequest {
                    service_ip: service_ip.clone(),
                    namespace,
                    hpa_name: hpa_name.clone(),
                    workload_name: name,
                    config: config.clone(),
                },
            ),
            _ => None,
        }
    } else {
        None
    };
    services.insert(service_ip, data);
    Ok(request)
}

/// What the reconciler reads of a deployment or stateful set.
#[derive(Debug, PartialEq, Eq)]
pub struct WorkloadInfo {
    pub kind: WorkloadKind,
    pub name: String,
    pub namespace: Option<String>,
    /// The replica count from the workload's spec.
    pub replicas: Option<i32>,
}

/// A service's new availability, to publish once its workload has had time
/// to settle.
#[derive(Debug, PartialEq, Eq)]
pub struct AvailabilityUpdate {
    pub service_ip: String,
    pub backend_available: bool,
}

/// What a workload event asks for, as address and availability.
pub open spec fn workload_outcome(
    bindings: Seq<(WorkloadReferenceView, ServiceInfoView)>,
    kind: WorkloadKind,
    name: Seq<char>,
    namespace: Option<Seq<char>>,
    replicas: Option<i32>,
) -> Result<Option<(Seq<char>, bool)>, WatchError> {
    match namespace {
        None => Err(WatchError::MissingNamespace),
        Some(ns) => match bound_service(
            bindings,
            WorkloadReferenceView { kind: kind.name(), name, namespace: ns },
        ) {
            None => Ok(None),
            Some(service) => match replicas {
                None => Err(WatchError::MissingReplicas),
                Some(count) => if !service.has_spec {
                    Err(WatchError::MissingServiceSpec)
                } else {
                    match service.cluster_ip {
                        None => Err(WatchError::MissingClusterIp),
                        Some(ip) => Ok(Some((ip, count >= 1))),
                    }
                },
            },
        },
    }
}

/// The view of the outcome of a workload event.
pub open spec fn update_view(outcome: Result<Option<AvailabilityUpdate>, WatchError>) -> Result<
    Option<(Seq<char>, bool)>,
    WatchError,
> {
    match outcome {
        Ok(Some(u)) => Ok(Some((u.service_ip@, u.backend_available))),
        Ok(None) => Ok(None),
        Err(e) => Err(e),
    }
}

/// Decides what the event of a workload asks for: nothing where no service
/// is bound to the workload; else the bound service's address with whether
/// the workload has at least one replica.
pub fn process_resource(resource: &WorkloadInfo, workload_service: &WorkloadBindings) -> (outcome:
    Result<Option<AvailabilityUpdate>, WatchError>)
    ensures
        update_view(outcome) == workload_outcome(
            workload_service@,
            resource.kind,
            resource.name@,
            text_of(resource.namespace),
            resource.replicas,
        ),
{
    let namespace = match &resource.namespace {
        Some(ns) => ns.clone(),
        None => {
            return Err(WatchError::MissingNamespace);
        },
    };
    let reference = WorkloadReference {
        kind: resource.kind.as_string(),
        name: resource.name.clone(),
        namespace,
    };
    let service = match workload_service.get(&reference) {
        Some(s) => s,
        None => {
            return Ok(None);
        },
    };
    let replicas = match resource.replicas {
        Some(count) => count,
        None => {
            return Err(WatchError::MissingReplicas);
        },
    };
    if !service.has_spec {
        return Err(WatchError::MissingServiceSpec);
    }
    match &service.cluster_ip {
        Some(ip) => Ok(
            Some(AvailabilityUpdate { service_ip: ip.clone(), backend_available: replicas >= 1 }),
        ),
        None => Err(WatchError::MissingClusterIp),
    }
}

/// Publishes a service's availability to the registry.
pub fn publish_availability(services: &mut Registry, update: &AvailabilityUpdate)
    requires
        has_key(old(services)@, update.service_ip@),
    ensures
        final(services)@ == old(services)@.update(
            key_index(old(services)@, update.service_ip@),
            EntryView {
                ip: update.service_ip@,
                data: crate::scaler::with_backends(
                    old(services)@[key_index(old(services)@, update.service_ip@)].data,
                    update.backend_available,
                ),
            },
        ),
{
    match services.position(update.service_ip.as_str()) {
        Some(i) => {
            let mut data = services.data_at(i);
            data.backend_available = update.backend_available;
            services.replace_at(i, data);
        },
        None => vstd::pervasive::unreached(),
    }
}

} // verus!
