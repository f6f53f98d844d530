//! What a ping server makes of a whole byte stream: the accounting of
//! `ingest`, the signals of `progress`, and the events that come out when
//! the server is pumped until nothing is left.

use crate::events::Event;
use crate::ping::server::{
    decode_stream, lemma_decode_concat, lemma_records_taken_bounds, lemma_records_taken_value,
    records_taken, PingServerError, ServerState, RECORD_LEN,
};
use vstd::prelude::*;

verus! {

impl ServerState {
    /// The state after one round of pumping: `progress`, then `egress`
    /// with limit `max`.
    pub open spec fn after_round(self, max: nat) -> ServerState {
        self.after_progress().after_egress(max)
    }

    /// The events that one round of pumping hands out.
    pub open spec fn round_output(self, max: nat) -> Seq<Event> {
        let ready = self.after_progress();
        ready.egress.take(ready.handed_out(max) as int)
    }

    /// The state after `rounds` rounds of pumping.
    pub open spec fn after_rounds(self, max: nat, rounds: nat) -> ServerState
        decreases rounds,
    {
        if rounds == 0 {
            self
        } else {
            self.after_round(max).after_rounds(max, (rounds - 1) as nat)
        }
    }

    /// All events that `rounds` rounds of pumping hand out, in order.
    pub open spec fn rounds_output(self, max: nat, rounds: nat) -> Seq<Event>
        decreases rounds,
    {
        if rounds == 0 {
            Seq::empty()
        } else {
            self.round_output(max) + self.after_round(max).rounds_output(
                max,
                (rounds - 1) as nat,
            )
        }
    }

    /// The state after each chunk of `chunks` was offered to `ingest`, in
    /// order.
    pub open spec fn after_ingests(self, chunks: Seq<Seq<u8>>) -> ServerState
        decreases chunks.len(),
    {
        if chunks.len() == 0 {
            self
        } else {
            self.after_ingests(chunks.drop_last()).after_ingest(chunks.last())
        }
    }

    /// The bytes that the server took in while each chunk of `chunks` was
    /// offered to `ingest`: of each chunk the part that fitted, in order.
    pub open spec fn taken_in(self, chunks: Seq<Seq<u8>>) -> Seq<u8>
        decreases chunks.len(),
    {
        if chunks.len() == 0 {
            Seq::empty()
        } else {
            let earlier = self.after_ingests(chunks.drop_last());
            self.taken_in(chunks.drop_last()) + chunks.last().take(
                earlier.accepted(chunks.last().len()) as int,
            )
        }
    }
}

/// The accounting of `ingest`: the bytes taken are the first `read` bytes
/// of the input, they stand at the back of the buffer, whose length grows
/// by exactly `read`; and the signal is `IngestFull { read }` exactly when
/// `read` is less than the length of the input, else `Ok`.
pub proof fn lemma_ingest_accounting(state: ServerState, data: Seq<u8>)
    requires
        state.wf(),
        data.len() <= usize::MAX,
    ensures
        ({
            let read = state.accepted(data.len());
            let after = state.after_ingest(data);
            &&& after.wf()
            &&& read <= data.len()
            &&& after.ingest == state.ingest + data.take(read as int)
            &&& after.ingest.len() == state.ingest.len() + read
            &&& after.egress == state.egress
            &&& read < data.len() <==> state.ingest_signal(data) == Err::<(), PingServerError>(
                PingServerError::IngestFull { read: read as usize },
            )
            &&& read == data.len() <==> state.ingest_signal(data) == Ok::<(), PingServerError>(())
            &&& read < data.len() ==> after.ingest.len() == after.ingest_capacity
        }),
{
}

/// The signals of `progress`, for every state but one kind: a buffer with
/// less than one record beside a full egress buffer, where the signal is
/// `IngestEmpty` all the same.
///
/// `IngestEmpty` comes exactly when the ingest buffer held less than one
/// record at entry; `EgressFull` exactly when at least one whole record
/// is still in the ingest buffer afterwards and the egress buffer is full;
/// `Ok` in every other case.
pub proof fn lemma_progress_signal(state: ServerState)
    requires
        state.wf(),
        !(state.ingest.len() < RECORD_LEN && state.egress.len() == state.egress_capacity),
    ensures
        ({
            let after = state.after_progress();
            let signal = state.progress_signal();
            let empty = state.ingest.len() < RECORD_LEN && state.egress.len()
                < state.egress_capacity;
            let full = after.ingest.len() >= RECORD_LEN && after.egress.len()
                == after.egress_capacity;
            &&& after.wf()
            &&& signal == Err::<(), PingServerError>(PingServerError::IngestEmpty) <==> empty
            &&& signal == Err::<(), PingServerError>(PingServerError::EgressFull) <==> full
            &&& signal == Ok::<(), PingServerError>(()) <==> !empty && !full
        }),
{
    lemma_progress_shape(state);
}

/// What `progress` does, in numbers: it parses as many records as there
/// are whole records waiting or free slots, whichever is fewer, and each
/// of them adds one event.
pub proof fn lemma_progress_shape(state: ServerState)
    requires
        state.wf(),
    ensures
        ({
            let after = state.after_progress();
            let room = state.egress_capacity - state.egress.len();
            let waiting = state.ingest.len() as int / RECORD_LEN as int;
            let parsed = if waiting <= room {
                waiting
            } else {
                room
            };
            &&& after.wf()
            &&& state.consumed() == RECORD_LEN * parsed
            &&& state.consumed() % RECORD_LEN as nat == 0
            &&& after.ingest.len() == state.ingest.len() - RECORD_LEN * parsed
            &&& after.egress.len() == state.egress.len() + parsed
            &&& after.backlog() == state.backlog()
        }),
{
    let room = state.egress_capacity - state.egress.len();
    let taken = state.consumed() as int;
    lemma_records_taken_bounds(state.ingest, room);
    lemma_records_taken_value(state.ingest, room);
    lemma_decoded_len(state.ingest.take(taken));
    let head = state.ingest.take(taken);
    let tail = state.ingest.skip(taken);
    assert(state.ingest =~= head + tail);
    lemma_decode_concat(head, tail);
    assert(state.after_progress().backlog() =~= state.backlog());
    assert(state.consumed() % RECORD_LEN as nat == 0) by (nonlinear_arith)
        requires
            state.consumed() == RECORD_LEN as nat * records_taken(
                state.ingest,
                state.egress_capacity - state.egress.len(),
            ),
            RECORD_LEN == 32,
    ;
}

/// A stream decodes to one event for each whole record.
pub proof fn lemma_decoded_len(bytes: Seq<u8>)
    ensures
        decode_stream(bytes).len() == bytes.len() as int / RECORD_LEN as int,
    decreases bytes.len(),
{
    if bytes.len() >= RECORD_LEN {
        lemma_decoded_len(bytes.skip(RECORD_LEN as int));
        assert((bytes.len() - 32) / 32 == bytes.len() as int / 32 - 1);
    }
}

/// One round of pumping hands out a front part of the backlog and leaves
/// the rest of it; unless the backlog was empty, at least one event comes
/// out.
pub proof fn lemma_round_splits_backlog(state: ServerState, max: nat)
    requires
        state.wf(),
        max >= 1,
    ensures
        state.after_round(max).wf(),
        state.round_output(max) + state.after_round(max).backlog() == state.backlog(),
        state.backlog().len() > 0 ==> state.round_output(max).len() > 0,
        state.after_round(max).ingest == state.ingest.skip(state.consumed() as int),
        state.consumed() % RECORD_LEN as nat == 0,
        state.consumed() <= state.ingest.len(),
{
    lemma_progress_shape(state);
    lemma_decoded_len(state.ingest);
    let ready = state.after_progress();
    let n = ready.handed_out(max) as int;
    assert(ready.egress =~= ready.egress.take(n) + ready.egress.skip(n));
    assert(state.round_output(max) + state.after_round(max).backlog() =~= ready.backlog());
}

/// Pumping to completion: after enough rounds of `progress` and `egress`,
/// at least one for every event owed, the events handed out are exactly
/// the backlog, in order; the egress buffer is empty; and the ingest
/// buffer holds the bytes behind the last whole record, fewer than one
/// record's worth.
pub proof fn lemma_pumping_drains(state: ServerState, max: nat, rounds: nat)
    requires
        state.wf(),
        max >= 1,
        rounds >= state.backlog().len(),
    ensures
        ({
            let after = state.after_rounds(max, rounds);
            let whole = RECORD_LEN as int * (state.ingest.len() as int / RECORD_LEN as int);
            &&& after.wf()
            &&& state.rounds_output(max, rounds) == state.backlog()
            &&& after.egress.len() == 0
            &&& after.ingest.len() < RECORD_LEN
            &&& after.ingest == state.ingest.skip(whole)
        }),
    decreases rounds,
{
    lemma_decoded_len(state.ingest);
    if rounds == 0 {
        assert(state.backlog() =~= Seq::<Event>::empty());
        assert(state.ingest.skip(0) =~= state.ingest);
    } else {
        let next = state.after_round(max);
        let first = state.round_output(max);
        lemma_round_splits_backlog(state, max);
        assert(first.len() + next.backlog().len() == state.backlog().len());
        lemma_pumping_drains(next, max, (rounds - 1) as nat);
        let consumed = state.consumed() as int;
        let len = state.ingest.len() as int;
        assert((len - consumed) / 32 == len / 32 - consumed / 32 && consumed == 32 * (consumed
            / 32)) by {
            vstd::arithmetic::div_mod::lemma_fundamental_div_mod(consumed, 32);
            vstd::arithmetic::div_mod::lemma_fundamental_div_mod(len, 32);
            vstd::arithmetic::div_mod::lemma_fundamental_div_mod_converse(
                len - consumed,
                32,
                len / 32 - consumed / 32,
                len % 32,
            );
        }
        let whole = 32 * (len / 32);
        let whole_next = 32 * ((len - consumed) / 32);
        assert(state.ingest.skip(consumed).skip(whole_next) =~= state.ingest.skip(whole));
        assert(first + next.backlog() == state.backlog());
    }
}

/// Offering chunks to `ingest` one after the other appends, in order, the
/// part of each that fitted, and touches nothing else.
pub proof fn lemma_ingests_append(state: ServerState, chunks: Seq<Seq<u8>>)
    requires
        state.wf(),
    ensures
        state.after_ingests(chunks).wf(),
        state.after_ingests(chunks).ingest == state.ingest + state.taken_in(chunks),
        state.after_ingests(chunks).egress == state.egress,
    decreases chunks.len(),
{
    if chunks.len() == 0 {
        assert(state.ingest + Seq::<u8>::empty() =~= state.ingest);
    } else {
        lemma_ingests_append(state, chunks.drop_last());
        let earlier = state.after_ingests(chunks.drop_last());
        let part = chunks.last().take(earlier.accepted(chunks.last().len()) as int);
        assert(state.ingest + state.taken_in(chunks.drop_last()) + part =~= state.ingest + (
        state.taken_in(chunks.drop_last()) + part));
    }
}

/// From bytes to events: when a server that holds nothing is offered any
/// run of chunks and is then pumped to completion, the events handed out
/// are those of the bytes it took in, read as whole records, in stream
/// order, so also as a multiset; the bytes behind the last whole record
/// stay in the ingest buffer.
pub proof fn lemma_stream_round_trip(
    state: ServerState,
    chunks: Seq<Seq<u8>>,
    max: nat,
    rounds: nat,
)
    requires
        state.wf(),
        state.ingest.len() == 0,
        state.egress.len() == 0,
        max >= 1,
        rounds >= decode_stream(state.taken_in(chunks)).len(),
    ensures
        ({
            let stream = state.taken_in(chunks);
            let fed = state.after_ingests(chunks);
            let after = fed.after_rounds(max, rounds);
            let whole = RECORD_LEN as int * (stream.len() as int / RECORD_LEN as int);
            &&& fed.rounds_output(max, rounds) == decode_stream(stream)
            &&& fed.rounds_output(max, rounds).to_multiset() == decode_stream(
                stream,
            ).to_multiset()
            &&& after.egress.len() == 0
            &&& after.ingest == stream.skip(whole)
            &&& after.ingest.len() < RECORD_LEN
        }),
{
    lemma_ingests_append(state, chunks);
    let fed = state.after_ingests(chunks);
    assert(fed.ingest =~= state.taken_in(chunks));
    assert(fed.backlog() =~= decode_stream(state.taken_in(chunks)));
    lemma_pumping_drains(fed, max, rounds);
}

} // verus!
