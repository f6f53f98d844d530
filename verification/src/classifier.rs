//! The packet classifier: decides, for one received frame, whether it is an
//! ICMPv6 Echo Request aimed at the configured prefix.
//!
//! Every read of the frame is preceded by a bounds check against the end
//! of the frame. There is no allocation and no loop over the frame.

use crate::ping_event::PingEvent;
use crate::prefix::{octets_at, read_octets, spec_unpack, Ipv6Prefix};
use vstd::prelude::*;

verus! {

/// Length of the Ethernet header.
pub const ETH_HDR_LEN: usize = 14;

/// Offset of the EtherType field within the Ethernet header.
pub const ETHER_TYPE_OFFSET: usize = 12;

/// First byte of the EtherType of IPv6 (0x86DD).
pub const ETHER_TYPE_IPV6_HIGH: u8 = 0x86;

/// Second byte of the EtherType of IPv6 (0x86DD).
pub const ETHER_TYPE_IPV6_LOW: u8 = 0xDD;

/// Length of the fixed IPv6 header.
pub const IPV6_HDR_LEN: usize = 40;

/// Offset of the next-header field within the IPv6 header.
pub const NEXT_HDR_OFFSET: usize = 6;

/// Offset of the source address within the IPv6 header.
pub const SRC_ADDR_OFFSET: usize = 8;

/// Offset of the destination address within the IPv6 header.
pub const DST_ADDR_OFFSET: usize = 24;

/// Next-header value of ICMPv6.
pub const IP_PROTO_ICMPV6: u8 = 58;

/// ICMPv6 type of an Echo Request.
pub const ICMPV6_ECHO_REQUEST: u8 = 128;

/// Why a frame is not taken.
#[derive(Clone, Copy, Debug, PartialEq, Eq, Structural)]
pub enum Rejection {
    /// A header does not fit into the frame.
    Malformed,
    /// The frame is well formed but is no Echo Request over IPv6.
    NotForUs,
}

/// What is to be done with a frame.
#[derive(Clone, Copy, Debug, PartialEq, Eq)]
pub enum Classification {
    /// Hand the frame on to the network stack untouched.
    Pass,
    /// Give the frame up: it is malformed, or no valid prefix is configured.
    Abort,
    /// Put this record on the queue to user space; what becomes of the
    /// frame depends on whether the queue took it.
    Enqueue(PingEvent),
}

/// The final verdict on a frame.
#[derive(Clone, Copy, Debug, PartialEq, Eq, Structural)]
pub enum XdpAction {
    /// Give the frame up as an error.
    Aborted,
    /// Discard the frame.
    Drop,
    /// Hand the frame on to the network stack.
    Pass,
}

/// `len` bytes from `offset` on lie within the frame.
pub open spec fn in_frame(frame: Seq<u8>, offset: int, len: usize) -> bool {
    offset + len <= frame.len()
}

/// The frame carries IPv6: its EtherType is 0x86DD.
pub open spec fn carries_ipv6(frame: Seq<u8>) -> bool {
    frame[ETHER_TYPE_OFFSET as int] == ETHER_TYPE_IPV6_HIGH && frame[ETHER_TYPE_OFFSET + 1]
        == ETHER_TYPE_IPV6_LOW
}

/// What the link-layer check says of a frame.
pub open spec fn spec_try_ipv6(frame: Seq<u8>) -> Result<(), Rejection> {
    if !in_frame(frame, 0, ETH_HDR_LEN) {
        Err(Rejection::Malformed)
    } else if !carries_ipv6(frame) {
        Err(Rejection::NotForUs)
    } else {
        Ok(())
    }
}

/// What the check for an Echo Request says of a frame whose IPv6 header
/// starts at `offset`.
pub open spec fn spec_try_icmp_echo_request(frame: Seq<u8>, offset: usize) -> Result<
    (),
    Rejection,
> {
    if !in_frame(frame, offset + 0, IPV6_HDR_LEN) {
        Err(Rejection::Malformed)
    } else if frame[offset + NEXT_HDR_OFFSET] != IP_PROTO_ICMPV6 {
        Err(Rejection::NotForUs)
    } else if !in_frame(frame, offset + IPV6_HDR_LEN, 1) {
        Err(Rejection::Malformed)
    } else if frame[offset + IPV6_HDR_LEN] != ICMPV6_ECHO_REQUEST {
        Err(Rejection::NotForUs)
    } else {
        Ok(())
    }
}

/// What is to be done with `frame` when the prefix cell holds `cell`.
pub open spec fn spec_classify(frame: Seq<u8>, cell: Option<[u8; 17]>) -> Classification {
    let ip = ETH_HDR_LEN;
    match spec_try_ipv6(frame) {
        Err(Rejection::Malformed) => Classification::Abort,
        Err(Rejection::NotForUs) => Classification::Pass,
        Ok(()) => match spec_try_icmp_echo_request(frame, ip) {
            Err(Rejection::Malformed) => Classification::Abort,
            Err(Rejection::NotForUs) => Classification::Pass,
            Ok(()) => {
                let source = octets_at(frame, ip + SRC_ADDR_OFFSET);
                let destination = octets_at(frame, ip + DST_ADDR_OFFSET);
                match cell {
                    None => Classification::Abort,
                    Some(bytes) => {
                        let prefix = spec_unpack(bytes);
                        if !prefix.wf() {
                            Classification::Abort
                        } else if !prefix.spec_matches(destination) {
                            Classification::Pass
                        } else {
                            Classification::Enqueue(
                                PingEvent {
                                    source_address: source,
                                    destination_address: destination,
                                },
                            )
                        }
                    },
                }
            },
        },
    }
}

/// Bounds-checked access to `len` bytes of the frame from `offset` on.
///
/// Returns the bytes if they all lie within the frame, else `Err(())`;
/// also when `offset + len` cannot be represented.
pub fn ptr_at(frame: &[u8], offset: usize, len: usize) -> (window: Result<&[u8], ()>)
    ensures
        window.is_ok() == in_frame(frame@, offset as int, len),
        window.is_ok() ==> window.unwrap()@ == frame@.subrange(offset as int, offset + len),
        window.is_ok() ==> offset + len <= usize::MAX,
{
    let end = frame.len();
    if offset > end || len > end - offset {
        return Err(());
    }
    Ok(vstd::slice::slice_subrange(frame, offset, offset + len))
}

/// Checks that the frame has a whole Ethernet header that announces IPv6.
pub fn try_ipv6(frame: &[u8]) -> (outcome: Result<(), Rejection>)
    ensures
        outcome == spec_try_ipv6(frame@),
{
    let ethhdr = match ptr_at(frame, 0, ETH_HDR_LEN) {
        Ok(window) => window,
        Err(_) => {
            return Err(Rejection::Malformed);
        },
    };
    if ethhdr[ETHER_TYPE_OFFSET] == ETHER_TYPE_IPV6_HIGH && ethhdr[ETHER_TYPE_OFFSET + 1]
        == ETHER_TYPE_IPV6_LOW {
        Ok(())
    } else {
        Err(Rejection::NotForUs)
    }
}

/// Checks that a whole IPv6 header starts at `offset`, that it announces
/// ICMPv6, and that the first byte behind it is the type of an Echo
/// Request.
pub fn try_icmp_echo_request(frame: &[u8], offset: usize) -> (outcome: Result<(), Rejection>)
    ensures
        outcome == spec_try_icmp_echo_request(frame@, offset),
{
    let ipv6hdr = match ptr_at(frame, offset, IPV6_HDR_LEN) {
        Ok(window) => window,
        Err(_) => {
            return Err(Rejection::Malformed);
        },
    };
    if ipv6hdr[NEXT_HDR_OFFSET] != IP_PROTO_ICMPV6 {
        return Err(Rejection::NotForUs);
    }
    let icmp_hdr = match ptr_at(frame, offset + IPV6_HDR_LEN, 1) {
        Ok(window) => window,
        Err(_) => {
            return Err(Rejection::Malformed);
        },
    };
    if icmp_hdr[0] == ICMPV6_ECHO_REQUEST {
        Ok(())
    } else {
        Err(Rejection::NotForUs)
    }
}

/// Reads the source and the destination address from the IPv6 header that
/// starts at `offset`.
pub fn extract_ipv6_addresses(frame: &[u8], offset: usize) -> (addresses: Result<
    ([u8; 16], [u8; 16]),
    Rejection,
>)
    ensures
        addresses == if in_frame(frame@, offset as int, IPV6_HDR_LEN) {
            Ok(
                (
                    octets_at(frame@, offset + SRC_ADDR_OFFSET),
                    octets_at(frame@, offset + DST_ADDR_OFFSET),
                ),
            )
        } else {
            Err(Rejection::Malformed)
        },
{
    let ipv6hdr = match ptr_at(frame, offset, IPV6_HDR_LEN) {
        Ok(window) => window,
        Err(_) => {
            return Err(Rejection::Malformed);
        },
    };
    let source = read_octets(ipv6hdr, SRC_ADDR_OFFSET);
    let destination = read_octets(ipv6hdr, DST_ADDR_OFFSET);
    assert(source =~= octets_at(frame@, offset + SRC_ADDR_OFFSET));
    assert(destination =~= octets_at(frame@, offset + DST_ADDR_OFFSET));
    Ok((source, destination))
}

/// Classifies one received frame.
///
/// A frame that is no Echo Request over IPv6 passes. One whose headers do
/// not fit is given up, and so is every Echo Request while the prefix cell
/// is empty or holds a length above 128. An Echo Request whose destination
/// lies within the prefix yields the record to enqueue; any other passes.
pub fn ipcanvas_ping(frame: &[u8], prefix_cell: Option<[u8; 17]>) -> (decision: Classification)
    ensures
        decision == spec_classify(frame@, prefix_cell),
{
    match try_ipv6(frame) {
        Ok(()) => {},
        Err(Rejection::Malformed) => {
            return Classification::Abort;
        },
        Err(Rejection::NotForUs) => {
            return Classification::Pass;
        },
    }
    let ipv6_offset = ETH_HDR_LEN;
    match try_icmp_echo_request(frame, ipv6_offset) {
        Ok(()) => {},
        Err(Rejection::Malformed) => {
            return Classification::Abort;
        },
        Err(Rejection::NotForUs) => {
            return Classification::Pass;
        },
    }
    let (source_addr, dest_addr) = match extract_ipv6_addresses(frame, ipv6_offset) {
        Ok(addresses) => addresses,
        Err(_) => {
            return Classification::Abort;
        },
    };
    let prefix_bytes = match prefix_cell {
        Some(bytes) => bytes,
        None => {
            return Classification::Abort;
        },
    };
    let prefix: Ipv6Prefix = Ipv6Prefix::from(prefix_bytes);
    if !prefix.is_valid() {
        return Classification::Abort;
    }
    if !prefix.matches(&dest_addr) {
        return Classification::Pass;
    }
    Classification::Enqueue(PingEvent::new(source_addr, dest_addr))
}

impl Classification {
    /// The verdict on the frame where it does not depend on the queue: a
    /// frame that passes or is given up has its verdict at once; one whose
    /// record is to be enqueued has none until the queue has answered.
    pub fn immediate_verdict(&self) -> (verdict: Option<XdpAction>)
        ensures
            verdict == match *self {
                Classification::Pass => Some(XdpAction::Pass),
                Classification::Abort => Some(XdpAction::Aborted),
                Classification::Enqueue(_) => None::<XdpAction>,
            },
    {
        match self {
            Classification::Pass => Some(XdpAction::Pass),
            Classification::Abort => Some(XdpAction::Aborted),
            Classification::Enqueue(_) => None,
        }
    }
}

/// The verdict on a frame whose record was offered to the queue: it
/// passes if the queue took the record, and is dropped if the queue was
/// full.
pub fn verdict_after_enqueue(enqueued: bool) -> (action: XdpAction)
    ensures
        action == if enqueued {
            XdpAction::Pass
        } else {
            XdpAction::Drop
        },
{
    if enqueued {
        XdpAction::Pass
    } else {
        XdpAction::Drop
    }
}

} // verus!
