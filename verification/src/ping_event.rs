//! The fixed-size record that the packet classifier hands to user space.

use vstd::prelude::*;

verus! {

/// Size in bytes of one record on the kernel-to-user queue.
pub const PING_EVENT_LEN: usize = 32;

/// One matched Echo Request: its source and destination addresses, both in
/// network byte order. On the wire it is the two addresses back to back,
/// with no padding and no framing.
#[derive(Clone, Copy, Debug, PartialEq, Eq)]
pub struct PingEvent {
    /// Source address of the Echo Request.
    pub source_address: [u8; 16],
    /// Destination address of the Echo Request.
    pub destination_address: [u8; 16],
}

impl PingEvent {
    /// The 32 bytes of the record: source, then destination.
    pub open spec fn spec_bytes(&self) -> Seq<u8> {
        self.source_address@ + self.destination_address@
    }

    /// A record from its two addresses.
    pub fn new(source: [u8; 16], destination: [u8; 16]) -> (event: Self)
        ensures
            event.source_address == source,
            event.destination_address == destination,
    {
        PingEvent { source_address: source, destination_address: destination }
    }

    /// The record as it travels on the queue.
    pub fn as_bytes(&self) -> (bytes: [u8; 32])
        ensures
            bytes@ == self.spec_bytes(),
    {
        let mut bytes = [0u8; 32];
        for k in 0usize..16
            invariant
                forall|i: int| 0 <= i < k ==> bytes[i] == self.source_address[i],
                forall|i: int| 0 <= i < k ==> bytes[16 + i] == self.destination_address[i],
        {
            bytes[k] = self.source_address[k];
            bytes[16 + k] = self.destination_address[k];
        }
        assert(bytes@ =~= self.spec_bytes());
        bytes
    }

    /// Reads a record back from its 32 bytes.
    pub fn from_bytes(bytes: &[u8; 32]) -> (event: Self)
        ensures
            event.source_address@ == bytes@.subrange(0, 16),
            event.destination_address@ == bytes@.subrange(16, 32),
            event.spec_bytes() == bytes@,
    {
        let mut source = [0u8; 16];
        let mut destination = [0u8; 16];
        for k in 0usize..16
            invariant
                forall|i: int| 0 <= i < k ==> source[i] == bytes[i],
                forall|i: int| 0 <= i < k ==> destination[i] == bytes[16 + i],
        {
            source[k] = bytes[k];
            destination[k] = bytes[16 + k];
        }
        assert(source@ =~= bytes@.subrange(0, 16));
        assert(destination@ =~= bytes@.subrange(16, 32));
        assert(source@ + destination@ =~= bytes@);
        PingEvent { source_address: source, destination_address: destination }
    }

    /// The source address, as its sixteen octets.
    pub fn source(&self) -> (octets: [u8; 16])
        ensures
            octets == self.source_address,
    {
        self.source_address
    }

    /// The destination address, as its sixteen octets.
    pub fn destination(&self) -> (octets: [u8; 16])
        ensures
            octets == self.destination_address,
    {
        self.destination_address
    }
}

/// A record survives the trip through its byte form: two records with the
/// same bytes are the same record.
pub proof fn lemma_bytes_determine_event(a: PingEvent, b: PingEvent)
    requires
        a.spec_bytes() == b.spec_bytes(),
    ensures
        a == b,
{
    let (sa, da) = (a.source_address@, a.destination_address@);
    let (sb, db) = (b.source_address@, b.destination_address@);
    assert(sa.len() == 16 && sb.len() == 16 && da.len() == 16 && db.len() == 16);
    assert forall|i: int| 0 <= i < 16 implies sa[i] == sb[i] by {
        assert((sa + da)[i] == (sb + db)[i]);
    }
    assert forall|i: int| 0 <= i < 16 implies da[i] == db[i] by {
        assert((sa + da)[16 + i] == (sb + db)[16 + i]);
    }
    assert(a.source_address =~= b.source_address);
    assert(a.destination_address =~= b.destination_address);
}

} // verus!
