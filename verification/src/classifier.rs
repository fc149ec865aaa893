//! The packet classifier: for each inbound frame, whether it passes, or is
//! dropped so that its sender tries again once the service is awake.

use vstd::prelude::*;
use crate::kernel_map::KernelMap;
use crate::models::PacketLog;

verus! {

/// Length of an Ethernet header.
pub const ETH_HEADER_LEN: usize = 14;

/// Length of an IPv4 header without options.
pub const IPV4_HEADER_LEN: usize = 20;

/// What is done with a frame.
#[derive(Debug, Clone, Copy, PartialEq, Eq, Structural)]
pub enum XdpAction {
    /// The frame could not be read.
    Aborted,
    /// The frame is dropped.
    Drop,
    /// The frame goes on.
    Pass,
}

/// A header does not fit in the frame.
#[derive(Debug, Clone, Copy, PartialEq, Eq, Structural)]
pub struct Truncated;

/// What is done with a frame, and the record to emit for it.
#[derive(Debug, Clone, Copy, PartialEq, Eq)]
pub struct Verdict {
    pub action: XdpAction,
    pub event: Option<PacketLog>,
}

/// The 32-bit number whose bytes are `a`, `b`, `c`, `d`, most significant
/// first.
pub open spec fn be_u32(a: u8, b: u8, c: u8, d: u8) -> u32 {
    (a as int * 0x100_0000 + b as int * 0x1_0000 + c as int * 0x100 + d as int) as u32
}

/// Whether the frame's EtherType is IPv4.
pub open spec fn is_ipv4(frame: Seq<u8>) -> bool {
    frame[12] == 0x08 && frame[13] == 0x00
}

/// The IPv4 destination of a frame: an error where the Ethernet header, or
/// the IPv4 header of an IPv4 frame, does not fit; none for a frame that is
/// not IPv4.
pub open spec fn frame_destination(frame: Seq<u8>) -> Result<Option<u32>, Truncated> {
    if frame.len() < ETH_HEADER_LEN {
        Err(Truncated)
    } else if !is_ipv4(frame) {
        Ok(None)
    } else if frame.len() < ETH_HEADER_LEN + IPV4_HEADER_LEN {
        Err(Truncated)
    } else {
        Ok(Some(be_u32(frame[30], frame[31], frame[32], frame[33])))
    }
}

/// Reads the IPv4 destination of a frame, never past the frame's end.
pub fn parse_destination(frame: &[u8]) -> (dst: Result<Option<u32>, Truncated>)
    ensures
        dst == frame_destination(frame@),
{
    if frame.len() < ETH_HEADER_LEN {
        return Err(Truncated);
    }
    if !(frame[12] == 0x08 && frame[13] == 0x00) {
        return Ok(None);
    }
    if frame.len() < ETH_HEADER_LEN + IPV4_HEADER_LEN {
        return Err(Truncated);
    }
    let dst: u32 = (frame[30] as u32) * 0x100_0000 + (frame[31] as u32) * 0x1_0000
        + (frame[32] as u32) * 0x100 + (frame[33] as u32);
    Ok(Some(dst))
}

/// The value that the table holds for `address`.
pub fn is_scalable_dst(service_list: &KernelMap, address: u32) -> (value: Option<u32>)
    ensures
        value == if service_list@.contains_key(address) {
            Some(service_list@[address])
        } else {
            None
        },
{
    service_list.get(address)
}

/// The verdict on a packet for `dst`, given what the table holds for it: an
/// address that is not in the table passes unrecorded; one whose backends are
/// away (0) is dropped with a wake-up record; any other passes with a record.
pub open spec fn verdict_for(held: Option<u32>, dst: u32) -> Verdict {
    match held {
        None => Verdict { action: XdpAction::Pass, event: None },
        Some(value) => if value == 0 {
            Verdict {
                action: XdpAction::Drop,
                event: Some(PacketLog { ipv4_address: dst, action: 1 }),
            }
        } else {
            Verdict {
                action: XdpAction::Pass,
                event: Some(PacketLog { ipv4_address: dst, action: 0 }),
            }
        },
    }
}

/// The verdict on a frame.
pub open spec fn frame_verdict(table: Map<u32, u32>, frame: Seq<u8>) -> Result<Verdict, Truncated> {
    match frame_destination(frame) {
        Err(e) => Err(e),
        Ok(None) => Ok(Verdict { action: XdpAction::Pass, event: None }),
        Ok(Some(dst)) => Ok(
            verdict_for(
                if table.contains_key(dst) {
                    Some(table[dst])
                } else {
                    None
                },
                dst,
            ),
        ),
    }
}

/// Classifies a frame, or fails where a header does not fit in it.
pub fn try_testapp(frame: &[u8], service_list: &KernelMap) -> (verdict: Result<Verdict, Truncated>)
    ensures
        verdict == frame_verdict(service_list@, frame@),
{
    let dst = match parse_destination(frame) {
        Err(e) => {
            return Err(e);
        },
        Ok(None) => {
            return Ok(Verdict { action: XdpAction::Pass, event: None });
        },
        Ok(Some(dst)) => dst,
    };
    match is_scalable_dst(service_list, dst) {
        Some(value) => {
            if value == 0 {
                return Ok(
                    Verdict {
                        action: XdpAction::Drop,
                        event: Some(PacketLog { ipv4_address: dst, action: 1 }),
                    },
                );
            }
            Ok(
                Verdict {
                    action: XdpAction::Pass,
                    event: Some(PacketLog { ipv4_address: dst, action: 0 }),
                },
            )
        },
        None => Ok(Verdict { action: XdpAction::Pass, event: None }),
    }
}

/// Classifies a frame. A frame that cannot be read is aborted and affects
/// no other.
pub fn testapp(frame: &[u8], service_list: &KernelMap) -> (verdict: Verdict)
    ensures
        verdict == match frame_verdict(service_list@, frame@) {
            Ok(v) => v,
            Err(_) => Verdict { action: XdpAction::Aborted, event: None },
        },
{
    match try_testapp(frame, service_list) {
        Ok(v) => v,
        Err(_) => Verdict { action: XdpAction::Aborted, event: None },
    }
}

} // verus!
