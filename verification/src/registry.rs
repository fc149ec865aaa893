//! The service registry: the table from service address to `ServiceData`.
//! Entries keep the order in which their keys were first inserted, and no key
//! occurs twice.

use vstd::prelude::*;
use crate::models::{ServiceData, ServiceDataView};
use crate::text::same_text;

verus! {

/// One entry of the registry's view: an address and what is known of it.
pub struct EntryView {
    pub ip: Seq<char>,
    pub data: ServiceDataView,
}

/// No address occurs twice.
pub open spec fn distinct_keys(entries: Seq<EntryView>) -> bool {
    forall|i: int, j: int|
        0 <= i < j < entries.len() ==> (#[trigger] entries[i]).ip != (#[trigger] entries[j]).ip
}

/// Some entry has the address `ip`.
pub open spec fn has_key(entries: Seq<EntryView>, ip: Seq<char>) -> bool {
    exists|i: int| 0 <= i < entries.len() && (#[trigger] entries[i]).ip == ip
}

/// The position of the entry with address `ip`, where there is one.
pub open spec fn key_index(entries: Seq<EntryView>, ip: Seq<char>) -> int {
    choose|i: int| 0 <= i < entries.len() && (#[trigger] entries[i]).ip == ip
}

/// What the table holds for `ip`.
pub open spec fn lookup(entries: Seq<EntryView>, ip: Seq<char>) -> Option<ServiceDataView> {
    if has_key(entries, ip) {
        Some(entries[key_index(entries, ip)].data)
    } else {
        None
    }
}

/// The table after storing `data` under `ip`: an existing entry keeps its
/// place and gets the new data, a new address goes to the end.
pub open spec fn upsert(entries: Seq<EntryView>, ip: Seq<char>, data: ServiceDataView) -> Seq<
    EntryView,
> {
    if has_key(entries, ip) {
        entries.update(key_index(entries, ip), EntryView { ip, data })
    } else {
        entries.push(EntryView { ip, data })
    }
}

/// Every entry's autoscaler fields agree with one another.
pub open spec fn all_wf(entries: Seq<EntryView>) -> bool {
    forall|i: int| 0 <= i < entries.len() ==> (#[trigger] entries[i]).data.wf()
}

/// In a table with distinct keys, the entry at `i` is the one found under its
/// own address.
pub proof fn lemma_key_index(entries: Seq<EntryView>, i: int)
    requires
        distinct_keys(entries),
        0 <= i < entries.len(),
    ensures
        has_key(entries, entries[i].ip),
        key_index(entries, entries[i].ip) == i,
        lookup(entries, entries[i].ip) == Some(entries[i].data),
{
    let j = key_index(entries, entries[i].ip);
    assert(0 <= j < entries.len() && entries[j].ip == entries[i].ip);
    if j < i {
        assert(entries[j].ip != entries[i].ip);
    } else if i < j {
        assert(entries[i].ip != entries[j].ip);
    }
}

/// Storing data whose autoscaler fields agree keeps every entry so.
pub proof fn lemma_upsert_keeps_wf(entries: Seq<EntryView>, ip: Seq<char>, data: ServiceDataView)
    requires
        all_wf(entries),
        data.wf(),
    ensures
        all_wf(upsert(entries, ip, data)),
{
    let after = upsert(entries, ip, data);
    if has_key(entries, ip) {
        let i = key_index(entries, ip);
        assert(0 <= i < entries.len() && entries[i].ip == ip);
    }
    assert forall|k: int| 0 <= k < after.len() implies (#[trigger] after[k]).data.wf() by {
        if k < entries.len() && after[k] == entries[k] {
            assert(entries[k].data.wf());
        }
    }
}

/// Storing data changes what is held for its address and for no other.
pub proof fn lemma_upsert_lookup(
    entries: Seq<EntryView>,
    ip: Seq<char>,
    data: ServiceDataView,
    other: Seq<char>,
)
    requires
        distinct_keys(entries),
    ensures
        distinct_keys(upsert(entries, ip, data)),
        lookup(upsert(entries, ip, data), ip) == Some(data),
        other != ip ==> lookup(upsert(entries, ip, data), other) == lookup(entries, other),
{
    let after = upsert(entries, ip, data);
    let at = if has_key(entries, ip) {
        key_index(entries, ip)
    } else {
        entries.len() as int
    };
    if has_key(entries, ip) {
        assert(0 <= at < entries.len() && entries[at].ip == ip);
    }
    assert forall|i: int, j: int| 0 <= i < j < after.len() implies (#[trigger] after[i]).ip
        != (#[trigger] after[j]).ip by {
        if j < entries.len() {
            assert(entries[i].ip != entries[j].ip);
            assert(after[i].ip == entries[i].ip && after[j].ip == entries[j].ip);
        } else {
            assert(after[j].ip == ip);
            assert(after[i].ip == entries[i].ip);
        }
    }
    assert(after[at].ip == ip);
    lemma_key_index(after, at);
    if other != ip {
        if has_key(entries, other) {
            let k = key_index(entries, other);
            assert(0 <= k < entries.len() && entries[k].ip == other);
            assert(after[k] == entries[k]);
            lemma_key_index(after, k);
        }
        if has_key(after, other) {
            let k = key_index(after, other);
            assert(0 <= k < after.len() && after[k].ip == other);
            assert(k < entries.len() && entries[k] == after[k]);
            lemma_key_index(entries, k);
        }
    }
}

/// One stored entry.
#[derive(Debug, PartialEq, Eq)]
pub struct RegistryEntry {
    pub ip: String,
    pub data: ServiceData,
}

impl View for RegistryEntry {
    type V = EntryView;

    open spec fn view(&self) -> EntryView {
        EntryView { ip: self.ip@, data: self.data@ }
    }
}

/// The views of a run of stored entries.
pub open spec fn views_of(entries: Seq<RegistryEntry>) -> Seq<EntryView> {
    Seq::new(entries.len(), |i: int| entries[i]@)
}

/// The table of tracked services.
pub struct Registry {
    entries: Vec<RegistryEntry>,
}

impl View for Registry {
    type V = Seq<EntryView>;

    closed spec fn view(&self) -> Seq<EntryView> {
        views_of(self.entries@)
    }
}

impl Registry {
    #[verifier::type_invariant]
    spec fn keys_are_distinct(self) -> bool {
        distinct_keys(views_of(self.entries@))
    }

    /// An empty table.
    pub fn new() -> (registry: Registry)
        ensures
            registry@ == Seq::<EntryView>::empty(),
    {
        let registry = Registry { entries: Vec::new() };
        assert(views_of(registry.entries@) =~= Seq::<EntryView>::empty());
        registry
    }

    /// The number of entries.
    pub fn len(&self) -> (n: usize)
        ensures
            n == self@.len(),
            distinct_keys(self@),
    {
        proof {
            use_type_invariant(self);
        }
        self.entries.len()
    }

    /// The position of `ip`'s entry, if it has one.
    pub fn position(&self, ip: &str) -> (found: Option<usize>)
        ensures
            distinct_keys(self@),
            match found {
                Some(i) => i < self@.len() && self@[i as int].ip == ip@ && has_key(self@, ip@)
                    && key_index(self@, ip@) == i,
                None => !has_key(self@, ip@),
            },
    {
        proof {
            use_type_invariant(self);
        }
        let mut i: usize = 0;
        while i < self.entries.len()
            invariant
                i <= self.entries.len(),
                distinct_keys(self@),
                forall|k: int| 0 <= k < i ==> (#[trigger] self@[k]).ip != ip@,
            decreases self.entries.len() - i,
        {
            if same_text(self.entries[i].ip.as_str(), ip) {
                proof {
                    lemma_key_index(self@, i as int);
                }
                return Some(i);
            }
            i += 1;
        }
        None
    }

    /// Whether `ip` has an entry.
    pub fn contains(&self, ip: &str) -> (present: bool)
        ensures
            present == has_key(self@, ip@),
    {
        self.position(ip).is_some()
    }

    /// A copy of what the table holds for `ip`.
    pub fn get(&self, ip: &str) -> (data: Option<ServiceData>)
        ensures
            crate::models::data_of(data) == lookup(self@, ip@),
    {
        match self.position(ip) {
            Some(i) => Some(self.entries[i].data.clone()),
            None => None,
        }
    }

    /// The entry at position `i`.
    pub fn entry(&self, i: usize) -> (entry: &RegistryEntry)
        requires
            i < self@.len(),
        ensures
            entry@ == self@[i as int],
    {
        &self.entries[i]
    }

    /// A copy of the address of the entry at position `i`.
    pub fn key_at(&self, i: usize) -> (ip: String)
        requires
            i < self@.len(),
        ensures
            ip@ == self@[i as int].ip,
    {
        self.entries[i].ip.clone()
    }

    /// A copy of the data of the entry at position `i`.
    pub fn data_at(&self, i: usize) -> (data: ServiceData)
        requires
            i < self@.len(),
        ensures
            data@ == self@[i as int].data,
    {
        self.entries[i].data.clone()
    }

    /// Replaces the data of the entry at position `i`, keeping its address.
    pub fn replace_at(&mut self, i: usize, data: ServiceData)
        requires
            i < old(self)@.len(),
        ensures
            final(self)@ == old(self)@.update(
                i as int,
                EntryView { ip: old(self)@[i as int].ip, data: data@ },
            ),
            distinct_keys(final(self)@),
    {
        proof {
            use_type_invariant(&*self);
        }
        let ip = self.entries[i].ip.clone();
        let ghost before = self@;
        let mut entries: Vec<RegistryEntry> = Vec::new();
        assert(views_of(entries@) =~= Seq::<EntryView>::empty());
        std::mem::swap(&mut self.entries, &mut entries);
        entries.set(i, RegistryEntry { ip, data });
        assert(views_of(entries@) =~= before.update(
            i as int,
            EntryView { ip: before[i as int].ip, data: data@ },
        ));
        std::mem::swap(&mut self.entries, &mut entries);
    }

    /// Stores `data` under `ip`, replacing what was there.
    pub fn insert(&mut self, ip: String, data: ServiceData)
        ensures
            final(self)@ == upsert(old(self)@, ip@, data@),
            distinct_keys(final(self)@),
    {
        proof {
            use_type_invariant(&*self);
        }
        match self.position(ip.as_str()) {
            Some(i) => {
                self.replace_at(i, data);
            },
            None => {
                let ghost before = self@;
                let ghost entry = EntryView { ip: ip@, data: data@ };
                let mut entries: Vec<RegistryEntry> = Vec::new();
                assert(views_of(entries@) =~= Seq::<EntryView>::empty());
                std::mem::swap(&mut self.entries, &mut entries);
                entries.push(RegistryEntry { ip, data });
                assert(views_of(entries@) =~= before.push(entry));
                std::mem::swap(&mut self.entries, &mut entries);
            },
        }
    }

    /// Sets `last_packet_time` of the entry at position `i`.
    pub fn touch_at(&mut self, i: usize, time: i64)
        requires
            i < old(self)@.len(),
        ensures
            final(self)@ == old(self)@.update(
                i as int,
                EntryView {
                    ip: old(self)@[i as int].ip,
                    data: ServiceDataView { last_packet_time: time, ..old(self)@[i as int].data },
                },
            ),
            distinct_keys(final(self)@),
    {
        proof {
            use_type_invariant(&*self);
        }
        let ghost before = self@;
        let mut entries: Vec<RegistryEntry> = Vec::new();
        assert(views_of(entries@) =~= Seq::<EntryView>::empty());
        std::mem::swap(&mut self.entries, &mut entries);
        entries[i].data.last_packet_time = time;
        assert(views_of(entries@) =~= before.update(
            i as int,
            EntryView {
                ip: before[i as int].ip,
                data: ServiceDataView { last_packet_time: time, ..before[i as int].data },
            },
        ));
        std::mem::swap(&mut self.entries, &mut entries);
    }

    /// Copies of all addresses, in the table's order.
    pub fn snapshot_keys(&self) -> (keys: Vec<String>)
        ensures
            keys@.len() == self@.len(),
            forall|i: int| 0 <= i < keys@.len() ==> (#[trigger] keys@[i])@ == self@[i].ip,
    {
        let mut keys: Vec<String> = Vec::new();
        let mut i: usize = 0;
        while i < self.entries.len()
            invariant
                i <= self.entries.len(),
                keys@.len() == i,
                forall|k: int| 0 <= k < i ==> (#[trigger] keys@[k])@ == self@[k].ip,
            decreases self.entries.len() - i,
        {
            keys.push(self.entries[i].ip.clone());
            i += 1;
        }
        keys
    }
}

} // verus!
