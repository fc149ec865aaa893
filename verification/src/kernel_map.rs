//! The table shared with the packet classifier: from IPv4 address to 1
//! where the service's backends are up and 0 where they are away. It holds at
//! most 1024 addresses.

use vstd::prelude::*;

verus! {

/// The most addresses that the table holds.
pub const MAX_ENTRIES: usize = 1024;

/// One slot of the table.
#[derive(Debug, Clone, Copy, PartialEq, Eq)]
pub struct Slot {
    pub key: u32,
    pub value: u32,
}

/// Some slot is for `key`.
pub open spec fn has_slot(slots: Seq<Slot>, key: u32) -> bool {
    exists|i: int| 0 <= i < slots.len() && (#[trigger] slots[i]).key == key
}

/// The position of the slot for `key`, where there is one.
pub open spec fn slot_index(slots: Seq<Slot>, key: u32) -> int {
    choose|i: int| 0 <= i < slots.len() && (#[trigger] slots[i]).key == key
}

/// No address has two slots.
pub open spec fn one_slot_each(slots: Seq<Slot>) -> bool {
    forall|i: int, j: int|
        0 <= i < j < slots.len() ==> (#[trigger] slots[i]).key != (#[trigger] slots[j]).key
}

/// The map that a run of slots with distinct keys stands for.
pub open spec fn map_of(slots: Seq<Slot>) -> Map<u32, u32> {
    Map::new(|key: u32| has_slot(slots, key), |key: u32| slots[slot_index(slots, key)].value)
}

/// In a run with distinct keys, the slot at `i` is the one found under its
/// own key.
pub proof fn lemma_slot_index(slots: Seq<Slot>, i: int)
    requires
        one_slot_each(slots),
        0 <= i < slots.len(),
    ensures
        has_slot(slots, slots[i].key),
        slot_index(slots, slots[i].key) == i,
        map_of(slots)[slots[i].key] == slots[i].value,
{
    let j = slot_index(slots, slots[i].key);
    assert(0 <= j < slots.len() && slots[j].key == slots[i].key);
    if j < i {
        assert(slots[j].key != slots[i].key);
    } else if i < j {
        assert(slots[i].key != slots[j].key);
    }
}

/// A new key at the end adds its pair to the map.
pub proof fn lemma_map_of_push(slots: Seq<Slot>, slot: Slot)
    requires
        one_slot_each(slots),
        !has_slot(slots, slot.key),
    ensures
        one_slot_each(slots.push(slot)),
        map_of(slots.push(slot)) == map_of(slots).insert(slot.key, slot.value),
{
    let longer = slots.push(slot);
    assert forall|i: int, j: int| 0 <= i < j < longer.len() implies (#[trigger] longer[i]).key
        != (#[trigger] longer[j]).key by {
        if j == slots.len() {
            assert(slots[i].key != slot.key);
        } else {
            assert(slots[i].key != slots[j].key);
        }
    }
    assert forall|k: u32| has_slot(longer, k) == (has_slot(slots, k) || k == slot.key) by {
        if has_slot(slots, k) {
            assert(longer[slot_index(slots, k)].key == k);
        }
        if k == slot.key {
            assert(longer[slots.len() as int].key == k);
        }
        if has_slot(longer, k) && k != slot.key {
            assert(slots[slot_index(longer, k)].key == k);
        }
    }
    assert forall|k: u32| has_slot(longer, k) implies #[trigger] map_of(longer)[k] == map_of(
        slots,
    ).insert(slot.key, slot.value)[k] by {
        let j = slot_index(longer, k);
        lemma_slot_index(longer, j);
        if k != slot.key {
            assert(slots[j].key == k);
            lemma_slot_index(slots, j);
        }
    }
    assert(map_of(longer) =~= map_of(slots).insert(slot.key, slot.value));
}

/// A new value in the slot at `i` puts that value into the map.
pub proof fn lemma_map_of_update(slots: Seq<Slot>, i: int, value: u32)
    requires
        one_slot_each(slots),
        0 <= i < slots.len(),
    ensures
        one_slot_each(slots.update(i, Slot { key: slots[i].key, value })),
        map_of(slots.update(i, Slot { key: slots[i].key, value })) == map_of(slots).insert(
            slots[i].key,
            value,
        ),
{
    let key = slots[i].key;
    let changed = slots.update(i, Slot { key, value });
    assert forall|a: int, b: int| 0 <= a < b < changed.len() implies (#[trigger] changed[a]).key
        != (#[trigger] changed[b]).key by {
        assert(changed[a].key == slots[a].key && changed[b].key == slots[b].key);
    }
    assert forall|k: u32| has_slot(changed, k) == has_slot(slots, k) by {
        if has_slot(slots, k) {
            assert(changed[slot_index(slots, k)].key == k);
        }
        if has_slot(changed, k) {
            assert(slots[slot_index(changed, k)].key == k);
        }
    }
    lemma_slot_index(slots, i);
    assert forall|k: u32| has_slot(changed, k) implies #[trigger] map_of(changed)[k] == map_of(
        slots,
    ).insert(key, value)[k] by {
        let j = slot_index(changed, k);
        lemma_slot_index(changed, j);
        assert(slots[j].key == k);
        lemma_slot_index(slots, j);
    }
    assert(map_of(changed) =~= map_of(slots).insert(key, value));
}

/// Taking the slot at `i` out takes its key out of the map.
pub proof fn lemma_map_of_remove(slots: Seq<Slot>, i: int)
    requires
        one_slot_each(slots),
        0 <= i < slots.len(),
    ensures
        one_slot_each(slots.remove(i)),
        map_of(slots.remove(i)) == map_of(slots).remove(slots[i].key),
{
    let key = slots[i].key;
    let fewer = slots.remove(i);
    assert forall|a: int, b: int| 0 <= a < b < fewer.len() implies (#[trigger] fewer[a]).key
        != (#[trigger] fewer[b]).key by {
        let sa = if a < i {
            a
        } else {
            a + 1
        };
        let sb = if b < i {
            b
        } else {
            b + 1
        };
        assert(fewer[a] == slots[sa] && fewer[b] == slots[sb]);
        assert(slots[sa].key != slots[sb].key);
    }
    assert forall|k: u32| has_slot(fewer, k) == (has_slot(slots, k) && k != key) by {
        if has_slot(slots, k) && k != key {
            let j = slot_index(slots, k);
            let f = if j < i {
                j
            } else {
                j - 1
            };
            assert(fewer[f].key == k);
        }
        if has_slot(fewer, k) {
            let f = slot_index(fewer, k);
            let j = if f < i {
                f
            } else {
                f + 1
            };
            assert(slots[j].key == k);
            if k == key {
                if j < i {
                    assert(slots[j].key != slots[i].key);
                } else {
                    assert(slots[i].key != slots[j].key);
                }
            }
        }
    }
    assert forall|k: u32| has_slot(fewer, k) implies #[trigger] map_of(fewer)[k] == map_of(
        slots,
    ).remove(key)[k] by {
        let f = slot_index(fewer, k);
        lemma_slot_index(fewer, f);
        let j = if f < i {
            f
        } else {
            f + 1
        };
        assert(slots[j] == fewer[f]);
        lemma_slot_index(slots, j);
    }
    assert(map_of(fewer) =~= map_of(slots).remove(key));
}

/// The shared table.
pub struct KernelMap {
    slots: Vec<Slot>,
}

impl View for KernelMap {
    type V = Map<u32, u32>;

    closed spec fn view(&self) -> Map<u32, u32> {
        map_of(self.slots@)
    }
}

/// The map after an attempt to store `value` under `key` while it holds
/// `count` addresses: a full table takes no new address.
pub open spec fn bounded_insert(m: Map<u32, u32>, count: nat, key: u32, value: u32) -> Map<
    u32,
    u32,
> {
    if m.contains_key(key) || count < MAX_ENTRIES {
        m.insert(key, value)
    } else {
        m
    }
}

impl KernelMap {
    #[verifier::type_invariant]
    spec fn inv(self) -> bool {
        one_slot_each(self.slots@) && self.slots@.len() <= MAX_ENTRIES
    }

    /// The number of addresses in the table.
    pub closed spec fn count(&self) -> nat {
        self.slots@.len()
    }

    /// An empty table.
    pub fn new() -> (table: KernelMap)
        ensures
            table@ == Map::<u32, u32>::empty(),
            table.count() == 0,
    {
        let table = KernelMap { slots: Vec::new() };
        assert(table@ =~= Map::<u32, u32>::empty());
        table
    }

    /// The number of addresses in the table.
    pub fn len(&self) -> (n: usize)
        ensures
            n == self.count(),
            n <= MAX_ENTRIES,
    {
        proof {
            use_type_invariant(self);
        }
        self.slots.len()
    }

    fn find(&self, key: u32) -> (found: Option<usize>)
        ensures
            one_slot_each(self.slots@),
            self.slots@.len() <= MAX_ENTRIES,
            match found {
                Some(i) => i < self.slots@.len() && self.slots@[i as int].key == key
                    && self@.contains_key(key) && self@[key] == self.slots@[i as int].value,
                None => !self@.contains_key(key),
            },
    {
        proof {
            use_type_invariant(self);
        }
        let mut i: usize = 0;
        while i < self.slots.len()
            invariant
                i <= self.slots.len(),
                one_slot_each(self.slots@),
                self.slots@.len() <= MAX_ENTRIES,
                forall|k: int| 0 <= k < i ==> (#[trigger] self.slots@[k]).key != key,
            decreases self.slots.len() - i,
        {
            if self.slots[i].key == key {
                proof {
                    lemma_slot_index(self.slots@, i as int);
                }
                return Some(i);
            }
            i += 1;
        }
        None
    }

    /// The value stored under `key`.
    pub fn get(&self, key: u32) -> (value: Option<u32>)
        ensures
            value == if self@.contains_key(key) {
                Some(self@[key])
            } else {
                None
            },
    {
        match self.find(key) {
            Some(i) => Some(self.slots[i].value),
            None => None,
        }
    }

    /// Stores `value` under `key`. A table that is full takes no new
    /// address; the result tells whether the value was stored.
    pub fn insert(&mut self, key: u32, value: u32) -> (stored: bool)
        ensures
            final(self)@ == bounded_insert(old(self)@, old(self).count(), key, value),
            stored == (old(self)@.contains_key(key) || old(self).count() < MAX_ENTRIES),
            final(self).count() == if stored && !old(self)@.contains_key(key) {
                old(self).count() + 1
            } else {
                old(self).count()
            },
    {
        let found = self.find(key);
        let ghost before = self.slots@;
        match found {
            Some(i) => {
                let mut slots: Vec<Slot> = Vec::new();
                std::mem::swap(&mut self.slots, &mut slots);
                slots.set(i, Slot { key, value });
                proof {
                    lemma_map_of_update(before, i as int, value);
                }
                std::mem::swap(&mut self.slots, &mut slots);
                true
            },
            None => {
                if self.slots.len() >= MAX_ENTRIES {
                    return false;
                }
                let mut slots: Vec<Slot> = Vec::new();
                std::mem::swap(&mut self.slots, &mut slots);
                slots.push(Slot { key, value });
                proof {
                    lemma_map_of_push(before, Slot { key, value });
                }
                std::mem::swap(&mut self.slots, &mut slots);
                true
            },
        }
    }

    /// Takes `key` out of the table.
    pub fn remove(&mut self, key: u32)
        ensures
            final(self)@ == old(self)@.remove(key),
            final(self).count() == if old(self)@.contains_key(key) {
                old(self).count() - 1
            } else {
                old(self).count() as int
            },
    {
        let found = self.find(key);
        let ghost before = self.slots@;
        match found {
            Some(i) => {
                let mut slots: Vec<Slot> = Vec::new();
                std::mem::swap(&mut self.slots, &mut slots);
                slots.remove(i);
                proof {
                    lemma_map_of_remove(before, i as int);
                }
                std::mem::swap(&mut self.slots, &mut slots);
            },
            None => {
                assert(self@ =~= self@.remove(key));
            },
        }
    }

    /// The addresses in the table, each once.
    pub fn keys(&self) -> (keys: Vec<u32>)
        ensures
            keys@.len() == self.count(),
            keys@.no_duplicates(),
            forall|k: u32| keys@.contains(k) == self@.contains_key(k),
    {
        proof {
            use_type_invariant(self);
        }
        let mut keys: Vec<u32> = Vec::new();
        let mut i: usize = 0;
        while i < self.slots.len()
            invariant
                i <= self.slots.len(),
                keys@.len() == i,
                forall|k: int| 0 <= k < i ==> keys@[k] == (#[trigger] self.slots@[k]).key,
            decreases self.slots.len() - i,
        {
            keys.push(self.slots[i].key);
            i += 1;
        }
        proof {
            assert forall|a: int, b: int| 0 <= a < keys@.len() && 0 <= b < keys@.len() && a
                != b implies keys@[a] != keys@[b] by {
                if a < b {
                    assert(self.slots@[a].key != self.slots@[b].key);
                } else {
                    assert(self.slots@[b].key != self.slots@[a].key);
                }
            }
            assert forall|k: u32| keys@.contains(k) == self@.contains_key(k) by {
                if keys@.contains(k) {
                    let i = choose|i: int| 0 <= i < keys@.len() && keys@[i] == k;
                    assert(self.slots@[i].key == k);
                }
                if self@.contains_key(k) {
                    let i = slot_index(self.slots@, k);
                    assert(keys@[i] == k);
                }
            }
        }
        keys
    }
}

} // verus!
