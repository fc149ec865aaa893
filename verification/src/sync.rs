//! Keeping the kernel's table in step with the registry.

use std::collections::HashMap;
use vstd::prelude::*;
use crate::ipv4::{parse_dotted, parse_ipv4};
use crate::kernel_map::{KernelMap, MAX_ENTRIES};
use crate::registry::{EntryView, Registry};

verus! {

broadcast use vstd::std_specs::hash::group_hash_axioms;

/// What the table holds for a service: 1 where its backends are up, else 0.
pub open spec fn availability_flag(available: bool) -> u32 {
    if available {
        1
    } else {
        0
    }
}

/// Every address of the registry reads as a dotted-decimal IPv4 address.
pub open spec fn keys_are_addresses(entries: Seq<EntryView>) -> bool {
    forall|i: int| 0 <= i < entries.len() ==> parse_dotted((#[trigger] entries[i]).ip) is Some
}

/// The address of an entry as a number.
pub open spec fn address_of(entry: EntryView) -> u32 {
    parse_dotted(entry.ip)->0
}

/// The table that mirrors the registry: each service's address with its
/// availability flag.
pub open spec fn desired_map(entries: Seq<EntryView>) -> Map<u32, u32>
    decreases entries.len(),
{
    if entries.len() == 0 {
        Map::empty()
    } else {
        desired_map(entries.drop_last()).insert(
            address_of(entries.last()),
            availability_flag(entries.last().data.backend_available),
        )
    }
}

/// The mirror holds exactly the addresses of the registry's entries.
pub proof fn lemma_desired_keys(entries: Seq<EntryView>)
    ensures
        forall|i: int|
            0 <= i < entries.len() ==> desired_map(entries).contains_key(
                address_of(#[trigger] entries[i]),
            ),
        forall|k: u32|
            desired_map(entries).contains_key(k) ==> exists|i: int|
                0 <= i < entries.len() && address_of(#[trigger] entries[i]) == k,
    decreases entries.len(),
{
    if entries.len() > 0 {
        let front = entries.drop_last();
        lemma_desired_keys(front);
        assert forall|i: int| 0 <= i < entries.len() implies desired_map(entries).contains_key(
            address_of(#[trigger] entries[i]),
        ) by {
            if i < entries.len() - 1 {
                assert(front[i] == entries[i]);
            }
        }
        assert forall|k: u32| desired_map(entries).contains_key(k) implies exists|i: int|
            0 <= i < entries.len() && address_of(#[trigger] entries[i]) == k by {
            if k == address_of(entries.last()) {
                assert(address_of(entries[entries.len() - 1]) == k);
            } else {
                assert(desired_map(front).contains_key(k));
                let i = choose|i: int| 0 <= i < front.len() && address_of(#[trigger] front[i]) == k;
                assert(0 <= i < front.len() && address_of(front[i]) == k);
                assert(entries[i] == front[i]);
            }
        }
    }
}

/// Whether every address of the registry reads as an IPv4 address.
pub fn all_keys_are_addresses(services: &Registry) -> (ok: bool)
    ensures
        ok == keys_are_addresses(services@),
{
    let n = services.len();
    let mut i: usize = 0;
    while i < n
        invariant
            i <= n,
            n == services@.len(),
            forall|k: int| 0 <= k < i ==> parse_dotted((#[trigger] services@[k]).ip) is Some,
        decreases n - i,
    {
        if parse_ipv4(services.entry(i).ip.as_str()).is_none() {
            return false;
        }
        i += 1;
    }
    true
}

/// The table that mirrors the registry.
pub fn get_local_service_list(services: &Registry) -> (pod_ips: HashMap<u32, u32>)
    requires
        keys_are_addresses(services@),
    ensures
        pod_ips@ == desired_map(services@),
{
    let mut pod_ips: HashMap<u32, u32> = HashMap::new();
    let n = services.len();
    let mut i: usize = 0;
    assert(pod_ips@ =~= desired_map(services@.subrange(0, 0)));
    while i < n
        invariant
            i <= n,
            n == services@.len(),
            keys_are_addresses(services@),
            pod_ips@ == desired_map(services@.subrange(0, i as int)),
        decreases n - i,
    {
        let entry = services.entry(i);
        proof {
            let done = services@.subrange(0, i as int + 1);
            assert(done.drop_last() =~= services@.subrange(0, i as int));
            assert(done.last() == services@[i as int]);
        }
        let key = match parse_ipv4(entry.ip.as_str()) {
            Some(k) => k,
            None => vstd::pervasive::unreached(),
        };
        let value: u32 = if entry.data.backend_available {
            1
        } else {
            0
        };
        pod_ips.insert(key, value);
        i += 1;
    }
    assert(services@.subrange(0, n as int) =~= services@);
    pod_ips
}

/// One change to the kernel's table.
#[derive(Debug, Clone, Copy, PartialEq, Eq, Structural)]
pub enum MapOp {
    /// Store `value` under `key`.
    Upsert { key: u32, value: u32 },
    /// Take `key` out.
    Remove { key: u32 },
}

/// The map after one change.
pub open spec fn replay_one(m: Map<u32, u32>, op: MapOp) -> Map<u32, u32> {
    match op {
        MapOp::Upsert { key, value } => m.insert(key, value),
        MapOp::Remove { key } => m.remove(key),
    }
}

/// The map after a run of changes, in order.
pub open spec fn replay(m: Map<u32, u32>, ops: Seq<MapOp>) -> Map<u32, u32>
    decreases ops.len(),
{
    if ops.len() == 0 {
        m
    } else {
        replay_one(replay(m, ops.drop_last()), ops.last())
    }
}

/// Whether `held` agrees with `mirror` wherever it holds anything.
pub open spec fn mirrors(held: Map<u32, u32>, mirror: Map<u32, u32>) -> bool {
    forall|k: u32| #[trigger]
        held.contains_key(k) ==> mirror.contains_key(k) && held[k] == mirror[k]
}

/// Whether the change `op` is due in a table that held `held` and is to
/// mirror `mirror`: a pair of the mirror is stored where the table lacked it
/// or held another value, and an address is taken out where the table held
/// it and the mirror does not.
pub open spec fn is_due(op: MapOp, held: Map<u32, u32>, mirror: Map<u32, u32>) -> bool {
    match op {
        MapOp::Upsert { key, value } => mirror.contains_key(key) && mirror[key] == value
            && !(held.contains_key(key) && held[key] == value),
        MapOp::Remove { key } => held.contains_key(key) && !mirror.contains_key(key),
    }
}

/// Whether a table with `held` addresses has room for `wanted` more.
pub open spec fn has_room(held: nat, wanted: nat) -> bool {
    held + wanted <= MAX_ENTRIES
}

/// Brings the kernel's table in step with the registry: each service's
/// address is stored with its availability flag where the table lacks it or
/// holds another value, then every address that no service has is taken out.
/// Returns the changes in the order in which they were made. Afterwards the
/// table holds nothing but the mirror's pairs; it holds all of them where it
/// had room for every address of the registry.
pub fn sync_data(services: &Registry, scalable_service_list: &mut KernelMap) -> (ops: Vec<MapOp>)
    requires
        keys_are_addresses(services@),
    ensures
        mirrors(final(scalable_service_list)@, desired_map(services@)),
        forall|i: int|
            0 <= i < ops@.len() ==> is_due(
                #[trigger] ops@[i],
                old(scalable_service_list)@,
                desired_map(services@),
            ),
        has_room(old(scalable_service_list).count(), services@.len()) ==> final(
            scalable_service_list
        )@ == desired_map(services@),
        has_room(old(scalable_service_list).count(), services@.len()) ==> replay(
            old(scalable_service_list)@,
            ops@,
        ) == final(scalable_service_list)@,
{
    let pod_ips = get_local_service_list(services);
    let ghost d = pod_ips@;
    let ghost start = scalable_service_list@;
    let ghost room = scalable_service_list.count() + services@.len() <= MAX_ENTRIES;
    let ghost count0 = scalable_service_list.count();
    proof {
        lemma_desired_keys(services@);
    }
    let mut ops: Vec<MapOp> = Vec::new();
    let n = services.len();
    let mut i: usize = 0;
    while i < n
        invariant
            i <= n,
            n == services@.len(),
            keys_are_addresses(services@),
            d == pod_ips@,
            d == desired_map(services@),
            room == (count0 + services@.len() <= MAX_ENTRIES),
            forall|j: int| 0 <= j < n ==> d.contains_key(address_of(#[trigger] services@[j])),
            scalable_service_list.count() <= count0 + i,
            forall|j: int|
                0 <= j < i && scalable_service_list@.contains_key(
                    address_of(#[trigger] services@[j]),
                ) ==> scalable_service_list@[address_of(services@[j])] == d[address_of(
                    services@[j],
                )],
            room ==> forall|j: int|
                0 <= j < i ==> scalable_service_list@.contains_key(
                    address_of(#[trigger] services@[j]),
                ),
            room ==> replay(start, ops@) == scalable_service_list@,
            forall|k: u32| start.contains_key(k) ==> #[trigger] scalable_service_list@.contains_key(k),
            forall|k: u32| #[trigger]
                scalable_service_list@.contains_key(k) ==> (start.contains_key(k) && start[k]
                    == scalable_service_list@[k]) || (d.contains_key(k)
                    && scalable_service_list@[k] == d[k]),
            forall|u: int| 0 <= u < ops@.len() ==> is_due(#[trigger] ops@[u], start, d),
        decreases n - i,
    {
        let entry = services.entry(i);
        let key = match parse_ipv4(entry.ip.as_str()) {
            Some(k) => k,
            None => vstd::pervasive::unreached(),
        };
        assert(key == address_of(services@[i as int]));
        let value: u32 = match pod_ips.get(&key) {
            Some(v) => *v,
            None => vstd::pervasive::unreached(),
        };
        let stale = match scalable_service_list.get(key) {
            Some(held) => held != value,
            None => true,
        };
        if stale {
            let ghost before_ops = ops@;
            assert(is_due(MapOp::Upsert { key, value }, start, d));
            scalable_service_list.insert(key, value);
            ops.push(MapOp::Upsert { key, value });
            assert(ops@.drop_last() =~= before_ops);
            assert forall|u: int| 0 <= u < ops@.len() implies is_due(
                #[trigger] ops@[u],
                start,
                d,
            ) by {
                if u < before_ops.len() {
                    assert(ops@[u] == before_ops[u]);
                }
            }
        }
        i += 1;
    }
    let keys = scalable_service_list.keys();
    let ghost filled = scalable_service_list@;
    let mut t: usize = 0;
    while t < keys.len()
        invariant
            t <= keys.len(),
            d == pod_ips@,
            forall|k: u32| keys@.contains(k) == filled.contains_key(k),
            forall|k: u32| #[trigger]
                scalable_service_list@.contains_key(k) ==> filled.contains_key(k)
                    && scalable_service_list@[k] == filled[k],
            forall|k: u32|
                filled.contains_key(k) && d.contains_key(k)
                    ==> #[trigger] scalable_service_list@.contains_key(k),
            forall|u: int|
                0 <= u < t && !d.contains_key(#[trigger] keys@[u])
                    ==> !scalable_service_list@.contains_key(keys@[u]),
            room ==> replay(start, ops@) == scalable_service_list@,
            forall|k: u32| #[trigger]
                filled.contains_key(k) ==> start.contains_key(k) || d.contains_key(k),
            forall|u: int| 0 <= u < ops@.len() ==> is_due(#[trigger] ops@[u], start, d),
        decreases keys.len() - t,
    {
        let key = keys[t];
        if !pod_ips.contains_key(&key) {
            let ghost before_ops = ops@;
            assert(keys@.contains(key));
            assert(filled.contains_key(key));
            assert(is_due(MapOp::Remove { key }, start, d));
            scalable_service_list.remove(key);
            ops.push(MapOp::Remove { key });
            assert(ops@.drop_last() =~= before_ops);
            assert forall|u: int| 0 <= u < ops@.len() implies is_due(
                #[trigger] ops@[u],
                start,
                d,
            ) by {
                if u < before_ops.len() {
                    assert(ops@[u] == before_ops[u]);
                }
            }
        }
        t += 1;
    }
    proof {
        let held = scalable_service_list@;
        assert forall|k: u32| #[trigger] held.contains_key(k) implies d.contains_key(k) && held[k]
            == d[k] by {
            assert(filled.contains_key(k));
            assert(keys@.contains(k));
            let u = choose|u: int| 0 <= u < keys@.len() && keys@[u] == k;
            assert(keys@[u] == k);
            assert(d.contains_key(k));
            let j = choose|j: int|
                0 <= j < services@.len() && address_of(#[trigger] services@[j]) == k;
            assert(address_of(services@[j]) == k);
        }
        if room {
            assert forall|k: u32| d.contains_key(k) implies held.contains_key(k) by {
                let j = choose|j: int|
                    0 <= j < services@.len() && address_of(#[trigger] services@[j]) == k;
                assert(address_of(services@[j]) == k);
                assert(filled.contains_key(k));
            }
            assert(held =~= d);
        }
    }
    ops
}

} // verus!
