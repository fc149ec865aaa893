//! The scale engine: what a packet does to the registry, which services a
//! wake-up scales and in what order, and what the idle sweep decides.

use vstd::prelude::*;
use crate::ipv4::{dotted, ipv4_to_string, is_loopback, loopback};
use crate::models::{
    PacketLog, ServiceData, ServiceDataView, WorkloadKind, kind_of, text_of, workload_kind,
};
use crate::priority::{in_priority_order, sort_by_priority, sorted_by_priority};
use crate::rate_limit::{Admission, RateLimiter, admission, decide_admission, last_call};
use crate::registry::{
    EntryView, Registry, RegistryEntry, all_wf, distinct_keys, has_key, key_index, views_of,
};
use crate::text::{from_chars, index_of, same_text, split, split_bounds, to_chars};

verus! {

/// Whether `target` names the service `data`: a bare name matches in every
/// namespace, `namespace/name` matches in that namespace only, and a target
/// with more than one slash matches nothing.
pub open spec fn matches_target(data: ServiceDataView, target: Seq<char>) -> bool {
    let parts = split(target, '/');
    if parts.len() == 1 {
        data.name == target
    } else if parts.len() == 2 {
        data.namespace == parts[0] && data.name == parts[1]
    } else {
        false
    }
}

/// Whether a relationship always refreshes its target: the two dependency
/// relationships do.
pub open spec fn forces_update(relationship: Seq<char>) -> bool {
    relationship == "dependency"@ || relationship == "dependent"@
}

/// The data after a refresh at `time`. A forced refresh always sets the
/// time; any other leaves a service alone whose autoscaler is managed and
/// whose backends are away.
pub open spec fn refreshed(data: ServiceDataView, time: i64, forced: bool) -> ServiceDataView {
    if forced || !(data.hpa_enabled && !data.backend_available) {
        ServiceDataView { last_packet_time: time, ..data }
    } else {
        data
    }
}

/// The table after refreshing what `target` names. An address is tried
/// first and refreshes that entry alone; otherwise every entry that the
/// target matches by name is refreshed.
pub open spec fn refresh_target(
    entries: Seq<EntryView>,
    target: Seq<char>,
    time: i64,
    forced: bool,
) -> Seq<EntryView> {
    if has_key(entries, target) {
        let i = key_index(entries, target);
        entries.update(i, EntryView { ip: target, data: refreshed(entries[i].data, time, forced) })
    } else {
        Seq::new(
            entries.len(),
            |i: int|
                if matches_target(entries[i].data, target) {
                    EntryView { ip: entries[i].ip, data: refreshed(entries[i].data, time, forced) }
                } else {
                    entries[i]
                },
        )
    }
}

/// A target to look for by name: `namespace` is absent for a bare name.
pub struct NamePattern {
    pub namespace: Option<String>,
    pub name: String,
}

impl NamePattern {
    /// Whether the pattern names `data`.
    pub open spec fn accepts(self, data: ServiceDataView) -> bool {
        &&& data.name == self.name@
        &&& self.namespace matches Some(ns) ==> data.namespace == ns@
    }

    /// Tests a service's name and namespace against the pattern.
    pub fn test(&self, name: &str, namespace: &str) -> (accepted: bool)
        ensures
            accepted == (name@ == self.name@ && (self.namespace matches Some(ns) ==> namespace@
                == ns@)),
    {
        if !same_text(name, self.name.as_str()) {
            return false;
        }
        match &self.namespace {
            Some(ns) => same_text(namespace, ns.as_str()),
            None => true,
        }
    }
}

/// Reads a target as a name pattern; `None` where no service can match.
pub fn name_pattern(target: &str) -> (pattern: Option<NamePattern>)
    ensures
        match pattern {
            Some(p) => forall|data: ServiceDataView|
                p.accepts(data) == #[trigger] matches_target(data, target@),
            None => forall|data: ServiceDataView| !#[trigger] matches_target(data, target@),
        },
{
    let chars = to_chars(target);
    let pieces = split_bounds(&chars, '/');
    if pieces.len() == 1 {
        let name = from_chars(&chars, pieces[0].0, pieces[0].1);
        proof {
            assert(split(chars@, '/')[0] == name@);
            lemma_single_piece(chars@, '/');
        }
        Some(NamePattern { namespace: None, name })
    } else if pieces.len() == 2 {
        let namespace = from_chars(&chars, pieces[0].0, pieces[0].1);
        let name = from_chars(&chars, pieces[1].0, pieces[1].1);
        proof {
            assert(split(chars@, '/')[0] == namespace@);
            assert(split(chars@, '/')[1] == name@);
        }
        Some(NamePattern { namespace: Some(namespace), name })
    } else {
        None
    }
}

/// A text that splits into one piece is that piece.
pub proof fn lemma_single_piece(s: Seq<char>, sep: char)
    requires
        split(s, sep).len() == 1,
    ensures
        split(s, sep)[0] == s,
{
    let i = index_of(s, sep);
    if 0 <= i < s.len() {
        assert(split(s.subrange(i + 1, s.len() as int), sep).len() >= 1) by {
            lemma_split_nonempty(s.subrange(i + 1, s.len() as int), sep);
        }
    }
}

/// Splitting always gives at least one piece.
pub proof fn lemma_split_nonempty(s: Seq<char>, sep: char)
    ensures
        split(s, sep).len() >= 1,
    decreases s.len(),
{
    let i = index_of(s, sep);
    if 0 <= i < s.len() {
        lemma_split_nonempty(s.subrange(i + 1, s.len() as int), sep);
    }
}

/// Refreshes the entry at position `i` under the refresh policy.
fn refresh_at(services: &mut Registry, i: usize, time: i64, forced: bool)
    requires
        i < old(services)@.len(),
    ensures
        final(services)@ == old(services)@.update(
            i as int,
            EntryView {
                ip: old(services)@[i as int].ip,
                data: refreshed(old(services)@[i as int].data, time, forced),
            },
        ),
{
    let entry = services.entry(i);
    if forced || !(entry.data.hpa_enabled && !entry.data.backend_available) {
        services.touch_at(i, time);
    } else {
        assert(services@ =~= old(services)@.update(i as int, old(services)@[i as int]));
    }
}

/// Records activity at `current_time` on what `dependency_target` names: the
/// entry with that address if there is one, else every entry with that name
/// (`name`, or `namespace/name`). With the relationship `"dependency"` or
/// `"dependent"` the time is always set; with any other, an entry with a
/// managed autoscaler and no backends is left as it is.
/// `triggering_service_ip` names the service whose traffic caused the call
/// and has no part in the result.
pub fn update_service_by_target(
    services: &mut Registry,
    dependency_target: &str,
    current_time: i64,
    triggering_service_ip: &str,
    relationship_type: &str,
)
    ensures
        final(services)@ == refresh_target(
            old(services)@,
            dependency_target@,
            current_time,
            forces_update(relationship_type@),
        ),
{
    let forced = same_text(relationship_type, "dependency") || same_text(
        relationship_type,
        "dependent",
    );
    match services.position(dependency_target) {
        Some(i) => {
            refresh_at(services, i, current_time, forced);
            return ;
        },
        None => {},
    }
    let ghost before = services@;
    let ghost after = refresh_target(before, dependency_target@, current_time, forced);
    let pattern = match name_pattern(dependency_target) {
        Some(p) => p,
        None => {
            assert(services@ =~= after);
            return ;
        },
    };
    let n = services.len();
    let mut i: usize = 0;
    while i < n
        invariant
            i <= n,
            n == before.len(),
            services@.len() == n,
            !has_key(before, dependency_target@),
            after == refresh_target(before, dependency_target@, current_time, forced),
            forall|data: ServiceDataView|
                pattern.accepts(data) == #[trigger] matches_target(data, dependency_target@),
            forall|k: int| 0 <= k < i ==> services@[k] == after[k],
            forall|k: int| i <= k < n ==> services@[k] == before[k],
        decreases n - i,
    {
        let entry = services.entry(i);
        if pattern.test(entry.data.name.as_str(), entry.data.namespace.as_str()) {
            assert(matches_target(before[i as int].data, dependency_target@));
            refresh_at(services, i, current_time, forced);
        } else {
            assert(!matches_target(before[i as int].data, dependency_target@));
        }
        i += 1;
    }
    assert(services@ =~= after);
}

/// The table after a forced refresh of each of `targets` in turn.
pub open spec fn refresh_targets(entries: Seq<EntryView>, targets: Seq<Seq<char>>, time: i64) -> Seq<
    EntryView,
>
    decreases targets.len(),
{
    if targets.len() == 0 {
        entries
    } else {
        refresh_target(refresh_targets(entries, targets.drop_last(), time), targets.last(), time, true)
    }
}

/// What traffic for `ip` at `time` does to the table: the service itself is
/// refreshed, then each of its dependencies, then each of its dependents. An
/// address without an entry changes nothing.
pub open spec fn packet_effect(entries: Seq<EntryView>, ip: Seq<char>, time: i64) -> Seq<
    EntryView,
> {
    if has_key(entries, ip) {
        let i = key_index(entries, ip);
        let data = entries[i].data;
        let touched = entries.update(
            i,
            EntryView { ip, data: ServiceDataView { last_packet_time: time, ..data } },
        );
        refresh_targets(refresh_targets(touched, data.dependencies, time), data.dependents, time)
    } else {
        entries
    }
}

/// Applies a forced refresh for each of `targets`, in order.
fn refresh_each(
    services: &mut Registry,
    targets: &Vec<String>,
    time: i64,
    origin: &str,
    relationship: &str,
)
    requires
        relationship@ == "dependency"@ || relationship@ == "dependent"@,
    ensures
        final(services)@ == refresh_targets(old(services)@, targets.deep_view(), time),
{
    let mut i: usize = 0;
    while i < targets.len()
        invariant
            i <= targets.len(),
            relationship@ == "dependency"@ || relationship@ == "dependent"@,
            services@ == refresh_targets(
                old(services)@,
                targets.deep_view().subrange(0, i as int),
                time,
            ),
        decreases targets.len() - i,
    {
        update_service_by_target(services, targets[i].as_str(), time, origin, relationship);
        proof {
            let done = targets.deep_view().subrange(0, i as int + 1);
            assert(done.drop_last() =~= targets.deep_view().subrange(0, i as int));
            assert(done.last() == targets@[i as int]@);
        }
        i += 1;
    }
    assert(targets.deep_view().subrange(0, i as int) =~= targets.deep_view());
}

/// Handles one record of the packet channel at time `now`. A loopback
/// destination is ignored. Otherwise the destination's entry, if any, and
/// what its dependencies and dependents name are marked active at `now`.
/// Returns the address to wake where the record asks for it (`action` 1).
pub fn process_packet(services: &mut Registry, packet_log: PacketLog, now: i64) -> (wake: Option<
    String,
>)
    ensures
        loopback(packet_log.ipv4_address) ==> final(services)@ == old(services)@ && wake is None,
        !loopback(packet_log.ipv4_address) ==> final(services)@ == packet_effect(
            old(services)@,
            dotted(packet_log.ipv4_address),
            now,
        ),
        !loopback(packet_log.ipv4_address) ==> text_of(wake) == if packet_log.action == 1 {
            Some(dotted(packet_log.ipv4_address))
        } else {
            None
        },
{
    if is_loopback(packet_log.ipv4_address) {
        return None;
    }
    let ip = ipv4_to_string(packet_log.ipv4_address);
    match services.position(ip.as_str()) {
        Some(i) => {
            let entry = services.entry(i);
            let dependencies = crate::models::clone_texts(&entry.data.dependencies);
            let dependents = crate::models::clone_texts(&entry.data.dependents);
            services.touch_at(i, now);
            refresh_each(services, &dependencies, now, ip.as_str(), "dependency");
            refresh_each(services, &dependents, now, ip.as_str(), "dependent");
        },
        None => {},
    }
    if packet_log.action == 1 {
        Some(ip)
    } else {
        None
    }
}

/// The position of the first entry that `target` matches by name, or the
/// number of entries where it matches none.
pub open spec fn first_match(entries: Seq<EntryView>, target: Seq<char>) -> int
    decreases entries.len(),
{
    if entries.len() == 0 {
        0
    } else if matches_target(entries[0].data, target) {
        0
    } else {
        1 + first_match(entries.drop_first(), target)
    }
}

/// `first_match` is the least position that the target matches.
pub proof fn lemma_first_match(entries: Seq<EntryView>, target: Seq<char>, i: int)
    requires
        0 <= i <= entries.len(),
        forall|k: int| 0 <= k < i ==> !matches_target((#[trigger] entries[k]).data, target),
        i < entries.len() ==> matches_target(entries[i].data, target),
    ensures
        first_match(entries, target) == i,
    decreases entries.len(),
{
    if entries.len() > 0 && i > 0 {
        assert(!matches_target(entries[0].data, target));
        assert forall|k: int| 0 <= k < i - 1 implies !matches_target(
            (#[trigger] entries.drop_first()[k]).data,
            target,
        ) by {
            assert(entries.drop_first()[k] == entries[k + 1]);
        }
        lemma_first_match(entries.drop_first(), target, i - 1);
    }
}

/// The position of the entry that `target` resolves to: the entry with
/// that address, else the first one it matches by name.
pub open spec fn resolve_target(entries: Seq<EntryView>, target: Seq<char>) -> Option<int> {
    if has_key(entries, target) {
        Some(key_index(entries, target))
    } else if first_match(entries, target) < entries.len() {
        Some(first_match(entries, target))
    } else {
        None
    }
}

/// Resolves a target to a position in the table.
pub fn find_target(services: &Registry, target: &str) -> (found: Option<usize>)
    ensures
        match found {
            Some(i) => i < services@.len() && resolve_target(services@, target@) == Some(i as int),
            None => resolve_target(services@, target@) is None,
        },
{
    match services.position(target) {
        Some(i) => {
            return Some(i);
        },
        None => {},
    }
    let n = services.len();
    let pattern = match name_pattern(target) {
        Some(p) => p,
        None => {
            proof {
                lemma_first_match(services@, target@, n as int);
            }
            return None;
        },
    };
    let mut i: usize = 0;
    while i < n
        invariant
            i <= n,
            n == services@.len(),
            !has_key(services@, target@),
            forall|data: ServiceDataView|
                pattern.accepts(data) == #[trigger] matches_target(data, target@),
            forall|k: int| 0 <= k < i ==> !matches_target((#[trigger] services@[k]).data, target@),
        decreases n - i,
    {
        let entry = services.entry(i);
        if pattern.test(entry.data.name.as_str(), entry.data.namespace.as_str()) {
            proof {
                assert(matches_target(services@[i as int].data, target@));
                lemma_first_match(services@, target@, i as int);
            }
            return Some(i);
        }
        assert(!matches_target(services@[i as int].data, target@));
        i += 1;
    }
    proof {
        lemma_first_match(services@, target@, n as int);
    }
    None
}

/// The address that `target` resolves to, if any: an address in the table
/// resolves to itself, a name to the first entry that bears it.
pub fn find_service_ip_by_target(services: &Registry, target: &str) -> (ip: Option<String>)
    ensures
        text_of(ip) == match resolve_target(services@, target@) {
            Some(i) => Some(services@[i].ip),
            None => None,
        },
{
    match find_target(services, target) {
        Some(i) => Some(services.key_at(i)),
        None => None,
    }
}

/// Of the services that `targets` resolve to, those whose backends are away,
/// in the order of the targets.
pub open spec fn cold_targets(entries: Seq<EntryView>, targets: Seq<Seq<char>>) -> Seq<EntryView>
    decreases targets.len(),
{
    if targets.len() == 0 {
        Seq::empty()
    } else {
        let front = cold_targets(entries, targets.drop_last());
        match resolve_target(entries, targets.last()) {
            Some(i) => if entries[i].data.backend_available {
                front
            } else {
                front.push(entries[i])
            },
            None => front,
        }
    }
}

/// What a wake-up of `ip` scales: the service itself, then those of its
/// dependencies and then those of its dependents whose backends are away.
pub open spec fn scale_up_candidates(entries: Seq<EntryView>, ip: Seq<char>) -> Seq<EntryView> {
    let own = entries[key_index(entries, ip)];
    seq![own] + cold_targets(entries, own.data.dependencies) + cold_targets(
        entries,
        own.data.dependents,
    )
}

/// Why a wake-up was not planned.
#[derive(Debug, Clone, Copy, PartialEq, Eq)]
pub enum ScaleUpError {
    /// The address was woken less than five seconds ago.
    RateLimited,
    /// The earlier wake-up of the address lies in the future.
    ClockWentBack,
}

impl ScaleUpError {
    /// The text of the error.
    pub open spec fn text(self) -> Seq<char> {
        match self {
            ScaleUpError::RateLimited =>
                "Rate Limited: Function can only be called once every 5 seconds per service_ip"@,
            ScaleUpError::ClockWentBack => "second time provided was later than self"@,
        }
    }

    /// The text of the error. That of `RateLimited` begins with
    /// `"Rate Limited: Function "`, by which callers tell it apart.
    pub fn message(&self) -> (text: String)
        ensures
            text@ == self.text(),
    {
        match self {
            ScaleUpError::RateLimited => String::from_str(
                "Rate Limited: Function can only be called once every 5 seconds per service_ip",
            ),
            ScaleUpError::ClockWentBack => String::from_str(
                "second time provided was later than self",
            ),
        }
    }
}

/// Appends to `plan` those of `targets` that resolve to a service whose
/// backends are away.
fn push_cold_targets(services: &Registry, targets: &Vec<String>, plan: &mut Vec<RegistryEntry>)
    ensures
        views_of(final(plan)@) == views_of(old(plan)@) + cold_targets(
            services@,
            targets.deep_view(),
        ),
{
    let ghost start = views_of(plan@);
    let mut i: usize = 0;
    assert(views_of(plan@) =~= start + cold_targets(
        services@,
        targets.deep_view().subrange(0, 0),
    ));
    while i < targets.len()
        invariant
            i <= targets.len(),
            views_of(plan@) == start + cold_targets(
                services@,
                targets.deep_view().subrange(0, i as int),
            ),
        decreases targets.len() - i,
    {
        proof {
            let done = targets.deep_view().subrange(0, i as int + 1);
            assert(done.drop_last() =~= targets.deep_view().subrange(0, i as int));
            assert(done.last() == targets@[i as int]@);
        }
        let ghost before = views_of(plan@);
        match find_target(services, targets[i].as_str()) {
            Some(k) => {
                let entry = services.entry(k);
                if !entry.data.backend_available {
                    plan.push(RegistryEntry { ip: entry.ip.clone(), data: entry.data.clone() });
                    assert(views_of(plan@) =~= before.push(services@[k as int]));
                }
            },
            None => {},
        }
        assert(views_of(plan@) =~= start + cold_targets(
            services@,
            targets.deep_view().subrange(0, i as int + 1),
        ));
        i += 1;
    }
    assert(targets.deep_view().subrange(0, i as int) =~= targets.deep_view());
}

/// Plans the wake-up of `service_ip` at `now` (nanoseconds since the epoch).
/// A wake-up less than five seconds after the last accepted one for the same
/// address is refused as `RateLimited` and leaves the limiter as it was. An
/// accepted one is remembered, and the plan lists the service and those of
/// its dependencies and dependents whose backends are away, highest scaling
/// priority first: children before parents.
pub fn scale_up(
    services: &Registry,
    limiter: &mut RateLimiter,
    service_ip: &str,
    now: u128,
) -> (plan: Result<Vec<RegistryEntry>, ScaleUpError>)
    requires
        has_key(services@, service_ip@),
    ensures
        match admission(last_call(old(limiter)@, service_ip@), now) {
            Admission::Admitted => {
                &&& plan matches Ok(list)
                &&& views_of(list@) == sorted_by_priority(
                    scale_up_candidates(services@, service_ip@),
                    true,
                )
                &&& in_priority_order(views_of(list@), true)
                &&& final(limiter)@ == old(limiter)@.insert(service_ip@, now)
            },
            Admission::Limited => {
                &&& plan matches Err(ScaleUpError::RateLimited)
                &&& final(limiter)@ == old(limiter)@
            },
            Admission::ClockWentBack => {
                &&& plan matches Err(ScaleUpError::ClockWentBack)
                &&& final(limiter)@ == old(limiter)@
            },
        },
{
    match decide_admission(limiter.last_called(service_ip), now) {
        Admission::Limited => {
            return Err(ScaleUpError::RateLimited);
        },
        Admission::ClockWentBack => {
            return Err(ScaleUpError::ClockWentBack);
        },
        Admission::Admitted => {},
    }
    limiter.record(service_ip, now);
    let own = match services.position(service_ip) {
        Some(i) => i,
        None => vstd::pervasive::unreached(),
    };
    let service = services.entry(own);
    let mut candidates: Vec<RegistryEntry> = Vec::new();
    candidates.push(RegistryEntry { ip: service.ip.clone(), data: service.data.clone() });
    assert(views_of(candidates@) =~= seq![services@[own as int]]);
    push_cold_targets(services, &service.data.dependencies, &mut candidates);
    push_cold_targets(services, &service.data.dependents, &mut candidates);
    Ok(sort_by_priority(candidates, true))
}

/// A change of a workload's replica count to ask of the cluster.
#[derive(Debug, PartialEq, Eq)]
pub struct ReplicaPatch {
    pub kind: WorkloadKind,
    pub namespace: String,
    pub name: String,
    pub replicas: i32,
}

/// The patch that sets the workload of `data` to `replicas`; none for a
/// workload of unknown kind.
pub open spec fn patch_for(data: ServiceDataView, replicas: i32) -> Option<
    (WorkloadKind, Seq<char>, Seq<char>, i32),
> {
    match kind_of(data.kind) {
        Some(kind) => Some((kind, data.namespace, data.name, replicas)),
        None => None,
    }
}

/// What a patch holds, as plain values.
pub open spec fn patch_view(patch: Option<ReplicaPatch>) -> Option<
    (WorkloadKind, Seq<char>, Seq<char>, i32),
> {
    match patch {
        Some(p) => Some((p.kind, p.namespace@, p.name@, p.replicas)),
        None => None,
    }
}

fn make_patch(data: &ServiceData, replicas: i32) -> (patch: Option<ReplicaPatch>)
    ensures
        patch_view(patch) == patch_for(data@, replicas),
{
    match workload_kind(data.kind.as_str()) {
        Some(kind) => Some(
            ReplicaPatch {
                kind,
                namespace: data.namespace.clone(),
                name: data.name.clone(),
                replicas,
            },
        ),
        None => None,
    }
}

/// One step of a wake-up: what to ask of the cluster for one service.
pub struct ScaleUpStep {
    /// The patch to one replica.
    pub patch: Option<ReplicaPatch>,
    /// Whether to recreate the autoscaler once the workload has settled.
    pub recreate_autoscaler: bool,
    /// The service as it was found, with its backends marked available.
    pub service: ServiceData,
}

/// Prepares the wake-up of the service at `service_ip`: nothing for an
/// unknown address; else the patch to one replica, the data to store once the
/// patch is through, and whether the autoscaler is to be recreated after it.
pub fn scale_service_by_ip(services: &Registry, service_ip: &str) -> (step: Option<ScaleUpStep>)
    ensures
        step is Some == has_key(services@, service_ip@),
        step matches Some(s) ==> {
            let found = services@[key_index(services@, service_ip@)].data;
            &&& s.service@ == with_backends(found, true)
            &&& patch_view(s.patch) == patch_for(found, 1)
            &&& s.recreate_autoscaler == found.hpa_enabled
        },
{
    match services.position(service_ip) {
        Some(i) => {
            let mut service = services.data_at(i);
            service.backend_available = true;
            let patch = make_patch(&service, 1);
            let recreate_autoscaler = service.hpa_enabled;
            Some(ScaleUpStep { patch, recreate_autoscaler, service })
        },
        None => None,
    }
}

/// The data to store after a scale action prepared from the copy `planned`:
/// the copy, with the autoscaler fields of the entry as it is now.
pub open spec fn merged(planned: ServiceDataView, live: ServiceDataView) -> ServiceDataView {
    ServiceDataView {
        hpa_enabled: live.hpa_enabled,
        hpa_name: live.hpa_name,
        hpa_deleted: live.hpa_deleted,
        hpa_config: live.hpa_config,
        ..planned
    }
}

/// The table after a scale action on `ip` is stored.
pub open spec fn stored(entries: Seq<EntryView>, ip: Seq<char>, planned: ServiceDataView) -> Seq<
    EntryView,
> {
    if has_key(entries, ip) {
        let i = key_index(entries, ip);
        entries.update(i, EntryView { ip, data: merged(planned, entries[i].data) })
    } else {
        entries
    }
}

/// Stores the outcome of a scale action on `service_ip`, once its patch is
/// through: the entry takes the prepared data, and keeps what the autoscaler
/// controller has written to it in the meantime. An address that has no
/// entry gets none.
pub fn store_scaled(services: &mut Registry, service_ip: &str, planned: ServiceData)
    ensures
        final(services)@ == stored(old(services)@, service_ip@, planned@),
{
    match services.position(service_ip) {
        Some(i) => {
            let live = services.entry(i);
            let mut data = planned;
            data.hpa_enabled = live.data.hpa_enabled;
            data.hpa_name = crate::models::clone_text(&live.data.hpa_name);
            data.hpa_deleted = live.data.hpa_deleted;
            data.hpa_config = crate::models::clone_config(&live.data.hpa_config);
            services.replace_at(i, data);
        },
        None => {},
    }
}

/// Whether a service has had no activity for longer than its threshold
/// while its backends are up.
pub open spec fn is_idle(data: ServiceDataView, now: i64) -> bool {
    now - data.last_packet_time > data.scale_down_time && data.backend_available
}

/// Whether a service's backends are away while its managed autoscaler is
/// still in place.
pub open spec fn is_orphaned(data: ServiceDataView) -> bool {
    data.hpa_enabled && !data.backend_available && !data.hpa_deleted
}

/// The patch of the sweep at `now` for a service: to zero replicas where
/// the service is idle and its workload's kind is known.
pub open spec fn sweep_patch(data: ServiceDataView, now: i64) -> Option<
    (WorkloadKind, Seq<char>, Seq<char>, i32),
> {
    if is_idle(data, now) {
        patch_for(data, 0)
    } else {
        None
    }
}

/// The data with its backends marked as given.
pub open spec fn with_backends(data: ServiceDataView, available: bool) -> ServiceDataView {
    ServiceDataView { backend_available: available, ..data }
}

/// What the idle sweep does with one service.
pub struct SweepStep {
    /// Remove the autoscaler that outlived its workload's backends.
    pub delete_orphaned_autoscaler: bool,
    /// Scale the workload to zero replicas.
    pub scale_to_zero: bool,
    /// Remove the autoscaler before scaling to zero.
    pub delete_autoscaler_first: bool,
    /// The patch to zero replicas, where the service scales to zero.
    pub patch: Option<ReplicaPatch>,
    /// The service with its backends marked away: what to store once the
    /// patch is through.
    pub service: ServiceData,
}

/// Decides what the sweep at `now` does with `service`: an orphaned
/// autoscaler is removed; an idle service is scaled to zero, its autoscaler
/// removed first where it has one in place.
pub fn sweep_step(service: &ServiceData, now: i64) -> (step: SweepStep)
    ensures
        step.delete_orphaned_autoscaler == is_orphaned(service@),
        step.scale_to_zero == is_idle(service@, now),
        step.delete_autoscaler_first == (is_idle(service@, now) && service.hpa_enabled
            && !service.hpa_deleted),
        patch_view(step.patch) == sweep_patch(service@, now),
        step.service@ == with_backends(service@, false),
{
    let orphaned = service.hpa_enabled && !service.backend_available && !service.hpa_deleted;
    let quiet: i128 = now as i128 - service.last_packet_time as i128;
    let idle = quiet > service.scale_down_time as i128 && service.backend_available;
    let mut planned = service.clone();
    planned.backend_available = false;
    let patch = if idle {
        make_patch(service, 0)
    } else {
        None
    };
    SweepStep {
        delete_orphaned_autoscaler: orphaned,
        scale_to_zero: idle,
        delete_autoscaler_first: idle && service.hpa_enabled && !service.hpa_deleted,
        patch,
        service: planned,
    }
}

/// The services to sweep, as they are now, lowest scaling priority first:
/// parents before children.
pub fn scale_down(services: &Registry) -> (sweep: Vec<RegistryEntry>)
    ensures
        views_of(sweep@) == sorted_by_priority(services@, false),
        in_priority_order(views_of(sweep@), false),
{
    let mut snapshot: Vec<RegistryEntry> = Vec::new();
    let n = services.len();
    let mut i: usize = 0;
    while i < n
        invariant
            i <= n,
            n == services@.len(),
            views_of(snapshot@) == services@.subrange(0, i as int),
        decreases n - i,
    {
        let entry = services.entry(i);
        let ghost before = views_of(snapshot@);
        snapshot.push(RegistryEntry { ip: entry.ip.clone(), data: entry.data.clone() });
        assert(views_of(snapshot@) =~= before.push(services@[i as int]));
        assert(views_of(snapshot@) =~= services@.subrange(0, i as int + 1));
        i += 1;
    }
    assert(services@.subrange(0, n as int) =~= services@);
    sort_by_priority(snapshot, false)
}

/// `after` is `before` with some of the services marked active at `time`
/// and nothing else changed.
pub open spec fn only_marked_active(before: Seq<EntryView>, after: Seq<EntryView>, time: i64) -> bool {
    &&& after.len() == before.len()
    &&& forall|i: int|
        0 <= i < before.len() ==> (#[trigger] after[i]).ip == before[i].ip && (after[i].data
            == before[i].data || after[i].data == ServiceDataView {
            last_packet_time: time,
            ..before[i].data
        })
}

/// Refreshing a target marks services active and changes nothing else.
pub proof fn lemma_refresh_target_marks(
    entries: Seq<EntryView>,
    target: Seq<char>,
    time: i64,
    forced: bool,
)
    ensures
        only_marked_active(entries, refresh_target(entries, target, time, forced), time),
{
    if has_key(entries, target) {
        let i = key_index(entries, target);
        assert(0 <= i < entries.len() && entries[i].ip == target);
    }
}

/// Refreshing a run of targets marks services active and changes nothing
/// else.
pub proof fn lemma_refresh_targets_marks(entries: Seq<EntryView>, targets: Seq<Seq<char>>, time: i64)
    ensures
        only_marked_active(entries, refresh_targets(entries, targets, time), time),
    decreases targets.len(),
{
    if targets.len() > 0 {
        let mid = refresh_targets(entries, targets.drop_last(), time);
        lemma_refresh_targets_marks(entries, targets.drop_last(), time);
        lemma_refresh_target_marks(mid, targets.last(), time, true);
        let after = refresh_targets(entries, targets, time);
        assert forall|i: int| 0 <= i < entries.len() implies (#[trigger] after[i]).ip
            == entries[i].ip && (after[i].data == entries[i].data || after[i].data
            == ServiceDataView { last_packet_time: time, ..entries[i].data }) by {
            assert(mid[i].ip == entries[i].ip);
        }
    }
}

/// A packet marks services active and changes nothing else.
pub proof fn lemma_packet_marks(entries: Seq<EntryView>, ip: Seq<char>, time: i64)
    ensures
        only_marked_active(entries, packet_effect(entries, ip, time), time),
{
    if has_key(entries, ip) {
        let i = key_index(entries, ip);
        assert(0 <= i < entries.len() && entries[i].ip == ip);
        let data = entries[i].data;
        let touched = entries.update(
            i,
            EntryView { ip, data: ServiceDataView { last_packet_time: time, ..data } },
        );
        let mid = refresh_targets(touched, data.dependencies, time);
        let after = refresh_targets(mid, data.dependents, time);
        lemma_refresh_targets_marks(touched, data.dependencies, time);
        lemma_refresh_targets_marks(mid, data.dependents, time);
        assert forall|k: int| 0 <= k < entries.len() implies (#[trigger] after[k]).ip
            == entries[k].ip && (after[k].data == entries[k].data || after[k].data
            == ServiceDataView { last_packet_time: time, ..entries[k].data }) by {
            assert(mid[k].ip == touched[k].ip);
            assert(touched[k].ip == entries[k].ip);
        }
    }
}

/// Traffic never sets a service's `last_packet_time` back: where no service
/// has been active after `time`, every service's time after a packet at
/// `time` is at least what it was.
pub proof fn lemma_packet_never_rewinds(entries: Seq<EntryView>, ip: Seq<char>, time: i64)
    requires
        forall|i: int| 0 <= i < entries.len() ==> (#[trigger] entries[i]).data.last_packet_time <= time,
    ensures
        packet_effect(entries, ip, time).len() == entries.len(),
        forall|i: int|
            0 <= i < entries.len() ==> (#[trigger] packet_effect(
                entries,
                ip,
                time,
            )[i]).data.last_packet_time >= entries[i].data.last_packet_time,
{
    lemma_packet_marks(entries, ip, time);
}

/// Activity through a dependency never sets a service's `last_packet_time`
/// back, where no service has been active after `time`.
pub proof fn lemma_refresh_never_rewinds(
    entries: Seq<EntryView>,
    target: Seq<char>,
    time: i64,
    forced: bool,
)
    requires
        forall|i: int| 0 <= i < entries.len() ==> (#[trigger] entries[i]).data.last_packet_time <= time,
    ensures
        refresh_target(entries, target, time, forced).len() == entries.len(),
        forall|i: int|
            0 <= i < entries.len() ==> (#[trigger] refresh_target(
                entries,
                target,
                time,
                forced,
            )[i]).data.last_packet_time >= entries[i].data.last_packet_time,
{
    lemma_refresh_target_marks(entries, target, time, forced);
}

/// Marking services active keeps every service's autoscaler fields in
/// agreement, and so do a packet and a refresh.
pub proof fn lemma_marking_keeps_wf(before: Seq<EntryView>, after: Seq<EntryView>, time: i64)
    requires
        all_wf(before),
        only_marked_active(before, after, time),
    ensures
        all_wf(after),
{
    assert forall|i: int| 0 <= i < after.len() implies (#[trigger] after[i]).data.wf() by {
        assert(before[i].data.wf());
    }
}

/// A change of availability leaves a service's autoscaler fields as they
/// are.
pub proof fn lemma_availability_keeps_wf(data: ServiceDataView, available: bool)
    requires
        data.wf(),
    ensures
        with_backends(data, available).wf(),
{
}

/// Storing the outcome of a scale action keeps every service's autoscaler
/// fields in agreement.
pub proof fn lemma_store_keeps_wf(entries: Seq<EntryView>, ip: Seq<char>, planned: ServiceDataView)
    requires
        all_wf(entries),
    ensures
        all_wf(stored(entries, ip, planned)),
{
    if has_key(entries, ip) {
        let i = key_index(entries, ip);
        assert(0 <= i < entries.len() && entries[i].ip == ip);
        let after = stored(entries, ip, planned);
        assert forall|k: int| 0 <= k < after.len() implies (#[trigger] after[k]).data.wf() by {
            assert(entries[k].data.wf());
        }
    }
}

/// Where a child is among the dependencies of a service that has an entry,
/// a packet for that service marks the child active: a parent's traffic
/// keeps its children from being swept.
pub proof fn lemma_packet_reaches_dependency(
    entries: Seq<EntryView>,
    ip: Seq<char>,
    time: i64,
    d: int,
    child: int,
)
    requires
        distinct_keys(entries),
        has_key(entries, ip),
        0 <= d < entries[key_index(entries, ip)].data.dependencies.len(),
        0 <= child < entries.len(),
        resolves_to(entries, entries[key_index(entries, ip)].data.dependencies[d], child),
    ensures
        packet_effect(entries, ip, time)[child].data.last_packet_time == time,
{
    let i = key_index(entries, ip);
    assert(0 <= i < entries.len() && entries[i].ip == ip);
    let data = entries[i].data;
    let touched = entries.update(
        i,
        EntryView { ip, data: ServiceDataView { last_packet_time: time, ..data } },
    );
    assert(only_marked_active(entries, touched, time));
    lemma_targets_reach(touched, data.dependencies, time, d, child, entries);
    let mid = refresh_targets(touched, data.dependencies, time);
    lemma_refresh_targets_marks(touched, data.dependencies, time);
    lemma_refresh_targets_marks(mid, data.dependents, time);
    let after = refresh_targets(mid, data.dependents, time);
    assert(after[child].data.last_packet_time == time);
}

/// Whether a refresh of `target` reaches the entry at `child`: the target is
/// its address, or no entry has the target as address and the target matches
/// it by name.
pub open spec fn resolves_to(entries: Seq<EntryView>, target: Seq<char>, child: int) -> bool {
    if has_key(entries, target) {
        entries[child].ip == target
    } else {
        matches_target(entries[child].data, target)
    }
}

/// A forced refresh of targets, one of which reaches `child`, leaves
/// `child` marked active at `time`.
proof fn lemma_targets_reach(
    entries: Seq<EntryView>,
    targets: Seq<Seq<char>>,
    time: i64,
    d: int,
    child: int,
    origin: Seq<EntryView>,
)
    requires
        distinct_keys(origin),
        0 <= d < targets.len(),
        0 <= child < entries.len(),
        only_marked_active(origin, entries, time),
        resolves_to(origin, targets[d], child),
    ensures
        refresh_targets(entries, targets, time)[child].data.last_packet_time == time,
    decreases targets.len(),
{
    let front = targets.drop_last();
    let mid = refresh_targets(entries, front, time);
    lemma_refresh_targets_marks(entries, front, time);
    lemma_refresh_target_marks(mid, targets.last(), time, true);
    let after = refresh_target(mid, targets.last(), time, true);
    if d < targets.len() - 1 {
        assert(front[d] == targets[d]);
        lemma_targets_reach(entries, front, time, d, child, origin);
    } else {
        let target = targets.last();
        assert(mid[child].ip == entries[child].ip);
        assert(entries[child].ip == origin[child].ip);
        lemma_same_keys(origin, mid, target);
        assert forall|a: int, b: int| 0 <= a < b < mid.len() implies (#[trigger] mid[a]).ip
        != (#[trigger] mid[b]).ip by {
            assert(mid[a].ip == entries[a].ip && entries[a].ip == origin[a].ip);
            assert(mid[b].ip == entries[b].ip && entries[b].ip == origin[b].ip);
            assert(origin[a].ip != origin[b].ip);
        }
        if has_key(mid, target) {
            let k = key_index(mid, target);
            assert(0 <= k < mid.len() && mid[k].ip == target);
            lemma_refresh_reaches_key(mid, target, time, child);
        } else {
            assert(matches_target(origin[child].data, target));
            assert(matches_target(mid[child].data, target));
        }
    }
}

/// Tables with the same addresses in the same places have the same keys.
proof fn lemma_same_keys(a: Seq<EntryView>, b: Seq<EntryView>, key: Seq<char>)
    requires
        a.len() == b.len(),
        forall|i: int| 0 <= i < a.len() ==> (#[trigger] a[i]).ip == b[i].ip,
    ensures
        has_key(a, key) == has_key(b, key),
{
    if has_key(a, key) {
        let i = key_index(a, key);
        assert(b[i].ip == key);
    }
    if has_key(b, key) {
        let i = key_index(b, key);
        assert(a[i].ip == b[i].ip);
    }
}

/// A forced refresh of an address marks every entry that bears it.
proof fn lemma_refresh_reaches_key(entries: Seq<EntryView>, target: Seq<char>, time: i64, child: int)
    requires
        0 <= child < entries.len(),
        entries[child].ip == target,
        distinct_keys(entries),
    ensures
        refresh_target(entries, target, time, true)[child].data.last_packet_time == time,
{
    crate::registry::lemma_key_index(entries, child);
}

/// A second call for an address less than five seconds after an accepted
/// one is refused as rate limited.
pub proof fn lemma_second_call_is_limited(
    calls: Map<Seq<char>, u128>,
    ip: Seq<char>,
    first: u128,
    second: u128,
)
    requires
        first <= second < first + crate::rate_limit::WINDOW_NANOS,
    ensures
        admission(last_call(calls.insert(ip, first), ip), second) == Admission::Limited,
{
}

/// A call for an address five seconds or more after the accepted one
/// before it is accepted.
pub proof fn lemma_later_call_is_admitted(
    calls: Map<Seq<char>, u128>,
    ip: Seq<char>,
    first: u128,
    second: u128,
)
    requires
        second >= first + crate::rate_limit::WINDOW_NANOS,
    ensures
        admission(last_call(calls.insert(ip, first), ip), second) == Admission::Admitted,
{
}

/// The text of the rate-limit error begins with `Rate Limited: Function `.
pub proof fn lemma_rate_limited_text()
    ensures
        ScaleUpError::RateLimited.text().len() >= 23,
        ScaleUpError::RateLimited.text().subrange(0, 23) == "Rate Limited: Function "@,
{
    reveal_strlit("Rate Limited: Function can only be called once every 5 seconds per service_ip");
    reveal_strlit("Rate Limited: Function ");
    assert(ScaleUpError::RateLimited.text().subrange(0, 23) =~= "Rate Limited: Function "@);
}

} // verus!
