//! State of the optional multi-node coordinator.

use vstd::prelude::*;
use crate::ipv4::{digit_char, digit_of};
use crate::models::ServiceData;
use crate::text::{from_chars, push_char, to_chars, trim, trim_bounds};

verus! {

/// A service's data as shared between nodes, with the time it was written.
pub struct EtcdServiceData {
    pub service_data: ServiceData,
    pub updated_at: i64,
}

/// Leadership record published by the elected node.
pub struct LeaderInfo {
    pub node_id: String,
    pub elected_at: i64,
    pub lease_id: u64,
}

/// One address of the shared service list, with the time it was written.
pub struct EtcdServiceListEntry {
    pub ip: u32,
    pub updated_at: i64,
}

/// What a node knows about its own role.
pub struct EtcdCoordinator {
    pub node_id: String,
    pub is_leader: bool,
    pub heartbeat_lease_id: Option<u64>,
    pub leader_lease_id: Option<u64>,
}

impl EtcdCoordinator {
    /// A coordinator for the node `node_id` that does not lead and holds no
    /// lease.
    pub fn new(node_id: String) -> (coordinator: EtcdCoordinator)
        ensures
            coordinator.node_id@ == node_id@,
            !coordinator.is_leader,
            coordinator.heartbeat_lease_id is None,
            coordinator.leader_lease_id is None,
    {
        EtcdCoordinator {
            node_id,
            is_leader: false,
            heartbeat_lease_id: None,
            leader_lease_id: None,
        }
    }

    /// Starts the coordinator: a node on its own takes the lead.
    pub fn start(&mut self)
        ensures
            final(self).is_leader,
            final(self).node_id == old(self).node_id,
            final(self).heartbeat_lease_id == old(self).heartbeat_lease_id,
            final(self).leader_lease_id == old(self).leader_lease_id,
    {
        self.is_leader = true;
    }

    /// Whether this node leads.
    pub fn is_leader(&self) -> (leader: bool)
        ensures
            leader == self.is_leader,
    {
        self.is_leader
    }
}

/// The decimal text of `n`, without leading zeros.
pub open spec fn decimal_text(n: nat) -> Seq<char>
    decreases n,
{
    if n < 10 {
        seq![digit_char(n as int)]
    } else {
        decimal_text(n / 10).push(digit_char((n % 10) as int))
    }
}

fn push_decimal(s: &mut String, n: u64)
    ensures
        final(s)@ == old(s)@ + decimal_text(n as nat),
    decreases n,
{
    if n >= 10 {
        push_decimal(s, n / 10);
    }
    push_char(s, digit_of((n % 10) as u32));
    assert(s@ =~= old(s)@ + decimal_text(n as nat));
}

/// The name of a node: its host name without surrounding white space, a
/// hyphen, and the time in seconds at which the node started.
pub open spec fn node_id_of(hostname: Seq<char>, timestamp: u64) -> Seq<char> {
    trim(hostname) + seq!['-'] + decimal_text(timestamp as nat)
}

/// Makes the name of a node from its host name and its start time.
pub fn generate_node_id(hostname: &str, timestamp: u64) -> (node_id: String)
    ensures
        node_id@ == node_id_of(hostname@, timestamp),
{
    let chars = to_chars(hostname);
    let (a, b) = trim_bounds(&chars, 0, chars.len());
    assert(chars@.subrange(0, chars@.len() as int) =~= chars@);
    let mut node_id = from_chars(&chars, a, b);
    push_char(&mut node_id, '-');
    push_decimal(&mut node_id, timestamp);
    assert(node_id@ =~= node_id_of(hostname@, timestamp));
    node_id
}

/// Whether this node leads: a node without a coordinator never does.
pub open spec fn leads(coordinator: Option<EtcdCoordinator>) -> bool {
    match coordinator {
        Some(c) => c.is_leader,
        None => false,
    }
}

/// Reports whether the installed coordinator, if any, holds leadership.
pub fn is_leader(coordinator: &Option<EtcdCoordinator>) -> (leader: bool)
    ensures
        leader == leads(*coordinator),
{
    match coordinator {
        Some(c) => c.is_leader(),
        None => false,
    }
}

} // verus!
