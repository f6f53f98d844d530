//! Buffers, record decoding and flow control of the ping server.

use crate::canvas::PixelColor;
use crate::events::Event;
use crate::ping_event::PingEvent;
use crate::prefix::octets_at;
use vstd::prelude::*;

verus! {

/// Number of bytes of one record of the incoming stream.
pub const RECORD_LEN: usize = 32;

/// Capacity of the ingest buffer of a default server, in bytes.
pub const DEFAULT_INGEST_CAPACITY: usize = 4096;

/// Capacity of the egress buffer of a default server, in events.
pub const DEFAULT_EGRESS_CAPACITY: usize = 32;

/// Flow-control signals of the server. None of them is a failure: each
/// tells the caller what to do next.
#[derive(Clone, Copy, Debug, PartialEq, Eq, Structural)]
pub enum PingServerError {
    /// The ingest buffer filled up after taking `read` bytes of the input.
    IngestFull { read: usize },
    /// The ingest buffer holds less than one record.
    IngestEmpty,
    /// The egress buffer is full while a whole record is still waiting.
    EgressFull,
    /// Unknown error.
    Unknown,
}

/// The big-endian value of two bytes.
pub open spec fn be16(high: u8, low: u8) -> u16 {
    (high as int * 256 + low as int) as u16
}

/// The events that one record stands for: a single pixel placement, whose
/// coordinates and color are read from the destination address.
pub open spec fn record_events(record: PingEvent) -> Seq<Event> {
    let d = record.destination_address;
    seq![
        Event::PlacePixel {
            x: be16(d[6], d[7]),
            y: be16(d[8], d[9]),
            color: PixelColor { r: d[11], g: d[13], b: d[15] },
        },
    ]
}

/// The record that thirty-two bytes of the stream hold.
pub open spec fn record_of(bytes: Seq<u8>) -> PingEvent {
    PingEvent { source_address: octets_at(bytes, 0), destination_address: octets_at(bytes, 16) }
}

/// The events of a byte stream read as a run of whole records, in stream
/// order. Bytes after the last whole record stand for nothing.
pub open spec fn decode_stream(bytes: Seq<u8>) -> Seq<Event>
    decreases bytes.len(),
{
    if bytes.len() < RECORD_LEN {
        Seq::empty()
    } else {
        record_events(record_of(bytes.take(RECORD_LEN as int))) + decode_stream(
            bytes.skip(RECORD_LEN as int),
        )
    }
}

/// How many whole records leave the front of `bytes` when `room` slots
/// for events are free: records go one by one, in order, and the first
/// whose events do not all fit stops the run.
pub open spec fn records_taken(bytes: Seq<u8>, room: int) -> nat
    decreases bytes.len(),
{
    if bytes.len() < RECORD_LEN {
        0
    } else {
        let events = record_events(record_of(bytes.take(RECORD_LEN as int)));
        if events.len() > room {
            0
        } else {
            1 + records_taken(bytes.skip(RECORD_LEN as int), room - events.len())
        }
    }
}

/// What a ping server holds: the bytes not yet parsed, the events not yet
/// handed out, and the two capacities it was made with.
pub struct ServerState {
    /// Bytes taken in and not yet turned into events, oldest first.
    pub ingest: Seq<u8>,
    /// Events ready to be handed out, oldest first.
    pub egress: Seq<Event>,
    /// Most bytes that `ingest` may hold.
    pub ingest_capacity: nat,
    /// Most events that `egress` may hold.
    pub egress_capacity: nat,
}

impl ServerState {
    /// Both buffers are within their capacities, the ingest buffer can
    /// hold more than one record, and the egress buffer at least one event.
    pub open spec fn wf(self) -> bool {
        &&& self.ingest_capacity > RECORD_LEN
        &&& self.egress_capacity > 0
        &&& self.ingest.len() <= self.ingest_capacity
        &&& self.egress.len() <= self.egress_capacity
    }

    /// How many of `offered` bytes the ingest buffer takes: all that fit.
    pub open spec fn accepted(self, offered: nat) -> nat {
        let free = (self.ingest_capacity - self.ingest.len()) as nat;
        if offered <= free {
            offered
        } else {
            free
        }
    }

    /// The state after `data` was offered to the ingest buffer.
    pub open spec fn after_ingest(self, data: Seq<u8>) -> ServerState {
        ServerState { ingest: self.ingest + data.take(self.accepted(data.len()) as int), ..self }
    }

    /// The signal that goes with `after_ingest`.
    pub open spec fn ingest_signal(self, data: Seq<u8>) -> Result<(), PingServerError> {
        if self.accepted(data.len()) < data.len() {
            Err(PingServerError::IngestFull { read: self.accepted(data.len()) as usize })
        } else {
            Ok(())
        }
    }

    /// Number of bytes that one call of `progress` consumes.
    pub open spec fn consumed(self) -> nat {
        RECORD_LEN as nat * records_taken(self.ingest, self.egress_capacity - self.egress.len())
    }

    /// The state after one call of `progress`: the records that went are
    /// gone from the front of the ingest buffer, and their events stand at
    /// the back of the egress buffer.
    pub open spec fn after_progress(self) -> ServerState {
        ServerState {
            ingest: self.ingest.skip(self.consumed() as int),
            egress: self.egress + decode_stream(self.ingest.take(self.consumed() as int)),
            ..self
        }
    }

    /// The signal that goes with `after_progress`.
    pub open spec fn progress_signal(self) -> Result<(), PingServerError> {
        if self.ingest.len() < RECORD_LEN {
            Err(PingServerError::IngestEmpty)
        } else if self.ingest.len() - self.consumed() >= RECORD_LEN {
            Err(PingServerError::EgressFull)
        } else {
            Ok(())
        }
    }

    /// How many events a call of `egress` with limit `max` hands out.
    pub open spec fn handed_out(self, max: nat) -> nat {
        if self.egress.len() <= max {
            self.egress.len()
        } else {
            max
        }
    }

    /// The state after a call of `egress` with limit `max`.
    pub open spec fn after_egress(self, max: nat) -> ServerState {
        ServerState { egress: self.egress.skip(self.handed_out(max) as int), ..self }
    }

    /// Every event that the server still owes: those ready, then those of
    /// the whole records waiting in the ingest buffer.
    pub open spec fn backlog(self) -> Seq<Event> {
        self.egress + decode_stream(self.ingest)
    }
}

/// Decoding goes record by record: behind a whole number of records, the
/// rest of the stream decodes as it would alone.
pub proof fn lemma_decode_concat(head: Seq<u8>, tail: Seq<u8>)
    requires
        head.len() % RECORD_LEN as nat == 0,
    ensures
        decode_stream(head + tail) == decode_stream(head) + decode_stream(tail),
    decreases head.len(),
{
    if head.len() == 0 {
        assert(head + tail =~= tail);
        assert(decode_stream(head) =~= Seq::<Event>::empty());
        assert(decode_stream(head) + decode_stream(tail) =~= decode_stream(tail));
    } else {
        let n = RECORD_LEN as int;
        assert((head + tail).take(n) =~= head.take(n));
        assert((head + tail).skip(n) =~= head.skip(n) + tail);
        lemma_decode_concat(head.skip(n), tail);
        assert(decode_stream(head + tail) =~= decode_stream(head) + decode_stream(tail));
    }
}

/// The records that go are whole records of the buffer, and what they
/// take does not exceed the free room.
pub proof fn lemma_records_taken_bounds(bytes: Seq<u8>, room: int)
    requires
        room >= 0,
    ensures
        RECORD_LEN * records_taken(bytes, room) <= bytes.len(),
        decode_stream(bytes.take(RECORD_LEN * records_taken(bytes, room))).len() <= room,
    decreases bytes.len(),
{
    let n = RECORD_LEN as int;
    let k = records_taken(bytes, room);
    if k == 0 {
        assert(bytes.take(0).len() == 0);
    } else {
        let events = record_events(record_of(bytes.take(n)));
        let rest = bytes.skip(n);
        lemma_records_taken_bounds(rest, room - events.len());
        let kr = records_taken(rest, room - events.len());
        assert(bytes.take(n * k) =~= bytes.take(n) + rest.take(n * kr));
        lemma_decode_concat(bytes.take(n), rest.take(n * kr));
        assert(bytes.take(n).take(n) =~= bytes.take(n));
        assert(decode_stream(bytes.take(n).skip(n)) =~= Seq::<Event>::empty());
        assert(decode_stream(bytes.take(n)) =~= events);
    }
}

/// With one event per record, the number of records that go is the
/// smaller of the whole records waiting and the free slots.
pub proof fn lemma_records_taken_value(bytes: Seq<u8>, room: int)
    requires
        room >= 0,
    ensures
        records_taken(bytes, room) == if bytes.len() / RECORD_LEN as nat <= room {
            bytes.len() as int / RECORD_LEN as int
        } else {
            room
        },
    decreases bytes.len(),
{
    let n = RECORD_LEN as int;
    if bytes.len() >= n && room >= 1 {
        lemma_records_taken_value(bytes.skip(n), room - 1);
        assert((bytes.len() - 32) / 32 == bytes.len() / 32 - 1);
    }
}

/// Removes the first `count` items of `items` in place; the rest move up
/// to the front and keep their order.
pub fn drop_front<T: Copy>(items: &mut Vec<T>, count: usize)
    requires
        count <= old(items)@.len(),
    ensures
        final(items)@ == old(items)@.skip(count as int),
{
    let kept: usize = items.len() - count;
    let ghost before = items@;
    for i in 0..kept
        invariant
            kept + count == before.len(),
            items.len() == before.len(),
            forall|j: int| 0 <= j < i ==> items@[j] == before[j + count],
            forall|j: int| i <= j < before.len() ==> items@[j] == before[j],
    {
        let moved = items[i + count];
        items[i] = moved;
    }
    items.truncate(kept);
    assert(items@ =~= before.skip(count as int));
}

/// A sans-I/O server that takes in the raw bytes of the record stream and
/// gives out canvas events.
///
/// It owns two buffers: the ingest buffer holds bytes not yet parsed, the
/// egress buffer holds events ready for the caller. Both are allocated
/// once, with the capacities given at construction, and never grow.
#[derive(Debug, PartialEq, Eq)]
pub struct PingServer {
    ingest: Vec<u8>,
    egress: Vec<Event>,
    ingest_capacity: usize,
    egress_capacity: usize,
}

impl View for PingServer {
    type V = ServerState;

    closed spec fn view(&self) -> ServerState {
        ServerState {
            ingest: self.ingest@,
            egress: self.egress@,
            ingest_capacity: self.ingest_capacity as nat,
            egress_capacity: self.egress_capacity as nat,
        }
    }
}

impl PingServer {
    /// The server keeps its buffers within the capacities it was made with.
    pub open spec fn wf(&self) -> bool {
        self@.wf()
    }

    /// Creates a server whose ingest buffer holds `ingest_capacity` bytes
    /// and whose egress buffer holds `egress_capacity` events.
    pub fn new(ingest_capacity: usize, egress_capacity: usize) -> (server: Self)
        requires
            ingest_capacity > RECORD_LEN,
            egress_capacity > 0,
        ensures
            server.wf(),
            server@ == (ServerState {
                ingest: Seq::empty(),
                egress: Seq::empty(),
                ingest_capacity: ingest_capacity as nat,
                egress_capacity: egress_capacity as nat,
            }),
    {
        PingServer {
            ingest: Vec::with_capacity(ingest_capacity),
            egress: Vec::with_capacity(egress_capacity),
            ingest_capacity,
            egress_capacity,
        }
    }

    /// Takes in as many bytes of `data` as the ingest buffer has room for.
    ///
    /// Returns `Ok` if that was all of them, else `IngestFull` with the
    /// number of bytes taken. The caller keeps the rest and offers it
    /// again after `progress` and `egress`.
    pub fn ingest(&mut self, data: &[u8]) -> (signal: Result<(), PingServerError>)
        requires
            old(self).wf(),
        ensures
            final(self).wf(),
            final(self)@ == old(self)@.after_ingest(data@),
            signal == old(self)@.ingest_signal(data@),
    {
        let available_space: usize = self.ingest_capacity - self.ingest.len();
        let to_read: usize = if available_space < data.len() {
            available_space
        } else {
            data.len()
        };
        let ghost before = self.ingest@;
        self.ingest.extend_from_slice(vstd::slice::slice_subrange(data, 0, to_read));
        assert(self.ingest@ =~= before + data@.take(to_read as int));
        if to_read < data.len() {
            Err(PingServerError::IngestFull { read: to_read })
        } else {
            Ok(())
        }
    }

    /// Turns one record into the events it stands for.
    ///
    /// For now that is a single pixel placement: `x` and `y` are the
    /// big-endian numbers in bytes 6..8 and 8..10 of the destination
    /// address, and its bytes 11, 13 and 15 are red, green and blue.
    pub fn handle_ping_event(ping_event: &PingEvent) -> (events: Vec<Event>)
        ensures
            events@ == record_events(*ping_event),
    {
        let d = &ping_event.destination_address;
        let mut events = Vec::new();
        let event = Event::PlacePixel {
            x: (d[6] as u16) * 256 + (d[7] as u16),
            y: (d[8] as u16) * 256 + (d[9] as u16),
            color: PixelColor { r: d[11], g: d[13], b: d[15] },
        };
        events.push(event);
        assert(events@ =~= record_events(*ping_event));
        events
    }

    /// Parses whole records from the front of the ingest buffer into the
    /// egress buffer, for as long as there is a whole record and room for
    /// its events, then removes the parsed bytes.
    ///
    /// Returns `IngestEmpty` if the ingest buffer held less than one record,
    /// `EgressFull` if the run stopped for want of room while a whole
    /// record was still waiting, else `Ok`.
    pub fn progress(&mut self) -> (signal: Result<(), PingServerError>)
        requires
            old(self).wf(),
        ensures
            final(self).wf(),
            final(self)@ == old(self)@.after_progress(),
            signal == old(self)@.progress_signal(),
            final(self)@.backlog() == old(self)@.backlog(),
    {
        let ghost start = self@;
        let ghost room = start.egress_capacity - start.egress.len();
        if self.ingest.len() < RECORD_LEN {
            proof {
                assert(start.ingest.skip(0) =~= start.ingest);
                assert(decode_stream(start.ingest.take(0)) =~= Seq::<Event>::empty());
                assert(start.egress + Seq::<Event>::empty() =~= start.egress);
            }
            return Err(PingServerError::IngestEmpty);
        }
        let mut offset: usize = 0;
        let mut buf = [0u8; 32];
        let mut flag_egress_full = false;
        let ghost mut done: nat = 0;
        proof {
            assert(start.ingest.skip(0) =~= start.ingest);
            assert(decode_stream(start.ingest.take(0)) =~= Seq::<Event>::empty());
            assert(start.egress + Seq::<Event>::empty() =~= start.egress);
        }
        while self.ingest.len() - offset >= RECORD_LEN
            invariant_except_break
                !flag_egress_full,
            invariant
                start.wf(),
                room == start.egress_capacity - start.egress.len(),
                self.ingest@ == start.ingest,
                self.ingest_capacity == start.ingest_capacity,
                self.egress_capacity == start.egress_capacity,
                offset == RECORD_LEN * done,
                offset <= start.ingest.len(),
                self.egress@ == start.egress + decode_stream(start.ingest.take(offset as int)),
                self.egress@.len() <= start.egress_capacity,
                records_taken(start.ingest, room) == done + records_taken(
                    start.ingest.skip(offset as int),
                    start.egress_capacity - self.egress@.len(),
                ),
            ensures
                start.wf(),
                self.ingest@ == start.ingest,
                self.ingest_capacity == start.ingest_capacity,
                self.egress_capacity == start.egress_capacity,
                offset == RECORD_LEN * done,
                offset <= start.ingest.len(),
                self.egress@ == start.egress + decode_stream(start.ingest.take(offset as int)),
                self.egress@.len() <= start.egress_capacity,
                records_taken(start.ingest, room) == done,
                flag_egress_full == (start.ingest.len() - offset >= RECORD_LEN),
            decreases start.ingest.len() - offset,
        {
            let ghost rest = start.ingest.skip(offset as int);
            for k in 0usize..32
                invariant
                    offset + RECORD_LEN <= self.ingest.len(),
                    self.ingest@ == start.ingest,
                    forall|i: int| 0 <= i < k ==> buf[i] == start.ingest[offset + i],
            {
                buf[k] = self.ingest[offset + k];
            }
            let ping_event = PingEvent::from_bytes(&buf);
            proof {
                assert(buf@ =~= rest.take(RECORD_LEN as int));
                let record = record_of(rest.take(RECORD_LEN as int));
                assert(record.source_address =~= ping_event.source_address);
                assert(record.destination_address =~= ping_event.destination_address);
            }
            let mut events = PingServer::handle_ping_event(&ping_event);
            if events.len() > self.egress_capacity - self.egress.len() {
                flag_egress_full = true;
                break ;
            }
            proof {
                let head = start.ingest.take(offset as int);
                let record = rest.take(RECORD_LEN as int);
                assert(start.ingest.take(offset + RECORD_LEN) =~= head + record);
                lemma_decode_concat(head, record);
                assert(record.take(RECORD_LEN as int) =~= record);
                assert(decode_stream(record.skip(RECORD_LEN as int)) =~= Seq::<Event>::empty());
                assert(decode_stream(record) =~= events@);
                assert(rest.skip(RECORD_LEN as int) =~= start.ingest.skip(offset + RECORD_LEN));
                assert(start.egress + decode_stream(head) + events@ =~= start.egress + (
                decode_stream(head) + events@));
            }
            self.egress.append(&mut events);
            offset += RECORD_LEN;
            proof {
                done = done + 1;
            }
        }
        drop_front(&mut self.ingest, offset);
        proof {
            let head = start.ingest.take(offset as int);
            let tail = start.ingest.skip(offset as int);
            assert(start.ingest =~= head + tail);
            lemma_decode_concat(head, tail);
            assert(self@.backlog() =~= start.backlog());
        }
        if flag_egress_full {
            Err(PingServerError::EgressFull)
        } else {
            Ok(())
        }
    }

    /// Removes up to `max_events` events from the front of the egress
    /// buffer and returns them, oldest first.
    pub fn egress(&mut self, max_events: usize) -> (events: Vec<Event>)
        requires
            old(self).wf(),
        ensures
            final(self).wf(),
            final(self)@ == old(self)@.after_egress(max_events as nat),
            events@ == old(self)@.egress.take(old(self)@.handed_out(max_events as nat) as int),
            events@ + final(self)@.backlog() == old(self)@.backlog(),
    {
        let to_egress: usize = if self.egress.len() < max_events {
            self.egress.len()
        } else {
            max_events
        };
        let ghost before = self.egress@;
        let mut events: Vec<Event> = Vec::with_capacity(to_egress);
        for i in 0..to_egress
            invariant
                to_egress <= self.egress@.len(),
                self.egress@ == before,
                events@ == before.take(i as int),
        {
            events.push(self.egress[i]);
            assert(before.take(i + 1) =~= before.take(i as int).push(before[i as int]));
        }
        drop_front(&mut self.egress, to_egress);
        proof {
            assert(before =~= before.take(to_egress as int) + before.skip(to_egress as int));
            assert(events@ + self@.backlog() =~= old(self)@.backlog());
        }
        events
    }

    /// Number of events ready to be handed out. Changes nothing.
    pub fn ready_events(&self) -> (count: usize)
        ensures
            count == self@.egress.len(),
    {
        self.egress.len()
    }

    /// Number of bytes waiting in the ingest buffer.
    pub fn ingest_len(&self) -> (count: usize)
        ensures
            count == self@.ingest.len(),
    {
        self.ingest.len()
    }

    /// Most bytes that the ingest buffer holds.
    pub fn ingest_capacity(&self) -> (capacity: usize)
        ensures
            capacity == self@.ingest_capacity,
    {
        self.ingest_capacity
    }

    /// Most events that the egress buffer holds.
    pub fn egress_capacity(&self) -> (capacity: usize)
        ensures
            capacity == self@.egress_capacity,
    {
        self.egress_capacity
    }
}

impl Clone for PingServer {
    /// A server in the same state.
    fn clone(&self) -> (copy: Self)
        ensures
            copy@ == self@,
    {
        let ingest = self.ingest.clone();
        let egress = self.egress.clone();
        assert(ingest@ =~= self.ingest@);
        assert(egress@ =~= self.egress@);
        PingServer {
            ingest,
            egress,
            ingest_capacity: self.ingest_capacity,
            egress_capacity: self.egress_capacity,
        }
    }
}

impl Default for PingServer {
    /// A server with room for 4096 bytes and 32 events.
    fn default() -> (server: Self)
        ensures
            server.wf(),
            server@ == (ServerState {
                ingest: Seq::empty(),
                egress: Seq::empty(),
                ingest_capacity: DEFAULT_INGEST_CAPACITY as nat,
                egress_capacity: DEFAULT_EGRESS_CAPACITY as nat,
            }),
    {
        PingServer::new(DEFAULT_INGEST_CAPACITY, DEFAULT_EGRESS_CAPACITY)
    }
}

} // verus!
