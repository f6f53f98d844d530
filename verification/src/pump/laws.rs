//! Nothing is lost: the events that a pump sends are, in order, those of
//! the bytes that it read.

use crate::events::Event;
use crate::ping::server::{decode_stream, lemma_decode_concat};
use crate::ping::stream::lemma_progress_shape;
use crate::pump::state::{bytes_read, lemma_driven, lemma_turn, PumpInput, PumpState};
use vstd::prelude::*;

verus! {

impl PumpState {
    /// The bytes that wait to be parsed: those in the server, then those
    /// before it.
    pub open spec fn waiting(self) -> Seq<u8> {
        self.server.ingest + self.unread
    }

    /// `later` comes after this state when `extra` bytes were read and
    /// `sent` went to the channel, nothing being lost or reordered: a
    /// whole number of records left the front of the waiting bytes, and
    /// their events, in order, are those that were sent or became ready.
    #[verifier::opaque]
    pub open spec fn leads_to(self, later: PumpState, sent: Seq<Event>, extra: Seq<u8>) -> bool {
        let all = self.waiting() + extra;
        let parsed = all.len() - later.waiting().len();
        &&& 0 <= parsed
        &&& parsed % 32 == 0
        &&& later.waiting() == all.skip(parsed)
        &&& sent + later.server.egress == self.server.egress + decode_stream(all.take(parsed))
    }
}

/// The bytes that `input` brings.
pub open spec fn bytes_of(input: PumpInput) -> Seq<u8> {
    match input {
        PumpInput::Read(data) => data,
        _ => Seq::empty(),
    }
}

/// A state leads to itself, with nothing read and nothing sent.
pub proof fn lemma_leads_to_itself(state: PumpState)
    ensures
        state.leads_to(state, Seq::empty(), Seq::empty()),
{
    reveal(PumpState::leads_to);
    let all = state.waiting() + Seq::<u8>::empty();
    assert(all =~= state.waiting());
    assert(all.skip(0) =~= all);
    assert(decode_stream(all.take(0)) =~= Seq::<Event>::empty());
    assert(Seq::<Event>::empty() + state.server.egress =~= state.server.egress + Seq::<
        Event,
    >::empty());
}

/// Only the buffers count: a state with the same server and the same
/// unread bytes as `later` is led to as well.
pub proof fn lemma_leads_to_same_buffers(
    state: PumpState,
    later: PumpState,
    other: PumpState,
    sent: Seq<Event>,
    extra: Seq<u8>,
)
    requires
        state.leads_to(later, sent, extra),
        other.server == later.server,
        other.unread == later.unread,
    ensures
        state.leads_to(other, sent, extra),
{
    reveal(PumpState::leads_to);
}

/// Steps chain: what was read and what was sent add up.
pub proof fn lemma_leads_to_chains(
    first: PumpState,
    second: PumpState,
    third: PumpState,
    sent_1: Seq<Event>,
    extra_1: Seq<u8>,
    sent_2: Seq<Event>,
    extra_2: Seq<u8>,
)
    requires
        first.leads_to(second, sent_1, extra_1),
        second.leads_to(third, sent_2, extra_2),
    ensures
        first.leads_to(third, sent_1 + sent_2, extra_1 + extra_2),
{
    reveal(PumpState::leads_to);
    let all_1 = first.waiting() + extra_1;
    let parsed_1 = all_1.len() - second.waiting().len();
    let all_2 = second.waiting() + extra_2;
    let parsed_2 = all_2.len() - third.waiting().len();
    let all = first.waiting() + (extra_1 + extra_2);
    let parsed = parsed_1 + parsed_2;
    assert(all =~= all_1 + extra_2);
    assert(all.skip(parsed_1) =~= all_2);
    assert(all.skip(parsed) =~= all_2.skip(parsed_2));
    assert(all.take(parsed) =~= all_1.take(parsed_1) + all_2.take(parsed_2));
    lemma_decode_concat(all_1.take(parsed_1), all_2.take(parsed_2));
    let (d1, d2) = (decode_stream(all_1.take(parsed_1)), decode_stream(all_2.take(parsed_2)));
    assert((sent_1 + sent_2) + third.server.egress =~= sent_1 + (sent_2 + third.server.egress));
    assert(sent_1 + (second.server.egress + d2) =~= (sent_1 + second.server.egress) + d2);
    assert((first.server.egress + d1) + d2 =~= first.server.egress + (d1 + d2));
}

/// One turn of the server loses nothing.
pub proof fn lemma_turn_leads_on(state: PumpState)
    requires
        state.server.wf(),
    ensures
        state.leads_to(state.after_turn(), Seq::empty(), Seq::empty()),
{
    reveal(PumpState::leads_to);
    let turned = state.after_turn();
    lemma_progress_shape(state.server);
    let consumed = state.server.consumed() as int;
    let all = state.waiting() + Seq::<u8>::empty();
    assert(all =~= state.waiting());
    assert(turned.waiting() =~= all.skip(consumed));
    assert(all.take(consumed) =~= state.server.ingest.take(consumed));
    assert(Seq::<Event>::empty() + turned.server.egress =~= turned.server.egress);
}

/// Driving the server loses nothing.
pub proof fn lemma_driven_leads_on(state: PumpState)
    requires
        state.wf(),
    ensures
        state.leads_to(state.driven(), Seq::empty(), Seq::empty()),
        state.leads_to(state.resumed(), Seq::empty(), Seq::empty()),
    decreases state.unread.len(),
{
    let turned = state.after_turn();
    let none = Seq::<Event>::empty();
    let nothing = Seq::<u8>::empty();
    lemma_turn(state);
    lemma_turn_leads_on(state);
    lemma_leads_to_itself(state);
    if state.unread.len() != 0 && turned.server.egress.len() == 0 {
        lemma_driven_leads_on(turned);
        lemma_leads_to_chains(state, turned, turned.driven(), none, nothing, none, nothing);
        assert(none + none =~= none);
        assert(nothing + nothing =~= nothing);
    } else {
        lemma_leads_to_same_buffers(state, turned, state.driven(), none, nothing);
    }
    if state.server.egress.len() > 0 {
        lemma_leads_to_same_buffers(state, state, state.resumed(), none, nothing);
    }
}

/// Handing out events loses nothing: what is sent and what stays ready
/// are what was ready.
proof fn lemma_egress_leads_on(state: PumpState, granted: nat)
    ensures
        state.leads_to(
            PumpState { server: state.server.after_egress(granted), ..state },
            state.slots_output(granted),
            Seq::empty(),
        ),
{
    reveal(PumpState::leads_to);
    let drained = PumpState { server: state.server.after_egress(granted), ..state };
    let sent = state.slots_output(granted);
    let all = state.waiting() + Seq::<u8>::empty();
    assert(all =~= state.waiting());
    assert(all.skip(0) =~= all);
    assert(decode_stream(all.take(0)) =~= Seq::<Event>::empty());
    assert(sent + drained.server.egress =~= state.server.egress + Seq::<Event>::empty());
}

/// Taking in what a read gave loses nothing: the bytes taken and those
/// left unread are the bytes that waited and the bytes read.
proof fn lemma_ingest_leads_on(state: PumpState, data: Seq<u8>)
    ensures
        ({
            let offered = state.unread + data;
            let taken = state.server.accepted(offered.len()) as int;
            state.leads_to(
                PumpState {
                    server: state.server.after_ingest(offered),
                    unread: offered.skip(taken),
                    ..state
                },
                Seq::empty(),
                data,
            )
        }),
{
    reveal(PumpState::leads_to);
    let offered = state.unread + data;
    let taken = state.server.accepted(offered.len()) as int;
    let fed = PumpState {
        server: state.server.after_ingest(offered),
        unread: offered.skip(taken),
        ..state
    };
    let all = state.waiting() + data;
    assert(fed.waiting() =~= all);
    assert(all.skip(0) =~= all);
    assert(decode_stream(all.take(0)) =~= Seq::<Event>::empty());
    assert(Seq::<Event>::empty() + fed.server.egress =~= state.server.egress + Seq::<
        Event,
    >::empty());
}

/// Every step of the pump is faithful: the events that it sends are the
/// oldest owed, and what it read joins the waiting bytes at the back.
pub proof fn lemma_step_leads_on(state: PumpState, input: PumpInput)
    requires
        state.wf(),
    ensures
        state.after(input).wf(),
        state.leads_to(state.after(input), state.output(input), bytes_of(input)),
{
    let none = Seq::<Event>::empty();
    let nothing = Seq::<u8>::empty();
    match input {
        PumpInput::Slots(granted) => {
            let drained = PumpState { server: state.server.after_egress(granted), ..state };
            let sent = state.slots_output(granted);
            lemma_driven(drained);
            lemma_driven_leads_on(drained);
            lemma_egress_leads_on(state, granted);
            lemma_leads_to_chains(state, drained, drained.driven(), sent, nothing, none, nothing);
            assert(sent + none =~= sent);
            assert(nothing + nothing =~= nothing);
        },
        PumpInput::Read(data) => {
            if data.len() > 0 {
                let offered = state.unread + data;
                let taken = state.server.accepted(offered.len()) as int;
                let fed = PumpState {
                    server: state.server.after_ingest(offered),
                    unread: offered.skip(taken),
                    ..state
                };
                lemma_driven(fed);
                lemma_driven_leads_on(fed);
                lemma_ingest_leads_on(state, data);
                lemma_leads_to_chains(state, fed, fed.resumed(), none, data, none, nothing);
                assert(none + none =~= none);
                assert(data + nothing =~= data);
            } else {
                assert(data =~= nothing);
                lemma_leads_to_itself(state);
                lemma_leads_to_same_buffers(state, state, state.after(input), none, nothing);
            }
        },
        PumpInput::WouldBlock => {
            lemma_leads_to_itself(state);
            lemma_driven_leads_on(state);
            lemma_driven(state);
            if state.must_block {
                lemma_leads_to_same_buffers(state, state, state.after(input), none, nothing);
            }
        },
        _ => {
            lemma_leads_to_itself(state);
            lemma_leads_to_same_buffers(state, state, state.after(input), none, nothing);
        },
    }
}

/// What a faithful run adds up to: the events sent, followed by those
/// still owed, are the events of all bytes decoded as one stream.
pub proof fn lemma_leads_to_sums_up(
    state: PumpState,
    later: PumpState,
    sent: Seq<Event>,
    extra: Seq<u8>,
)
    requires
        state.leads_to(later, sent, extra),
    ensures
        sent + later.outstanding() == state.server.egress + decode_stream(
            state.waiting() + extra,
        ),
{
    reveal(PumpState::leads_to);
    let all = state.waiting() + extra;
    let parsed = all.len() - later.waiting().len();
    assert(all =~= all.take(parsed) + all.skip(parsed));
    lemma_decode_concat(all.take(parsed), all.skip(parsed));
    let (head, tail) = (decode_stream(all.take(parsed)), decode_stream(all.skip(parsed)));
    assert(sent + (later.server.egress + tail) =~= (sent + later.server.egress) + tail);
    assert((state.server.egress + head) + tail =~= state.server.egress + (head + tail));
}

/// The pump loses nothing, invents nothing and keeps the order: after
/// any run of inputs, the events sent to the channel, followed by those
/// still owed, are the events of all bytes, those that waited at first
/// and those read since, decoded as one stream.
pub proof fn lemma_pump_is_faithful(state: PumpState, inputs: Seq<PumpInput>)
    requires
        state.wf(),
    ensures
        state.after_all(inputs).wf(),
        state.leads_to(state.after_all(inputs), state.output_of_all(inputs), bytes_read(inputs)),
        state.output_of_all(inputs) + state.after_all(inputs).outstanding()
            == state.server.egress + decode_stream(state.waiting() + bytes_read(inputs)),
    decreases inputs.len(),
{
    if inputs.len() == 0 {
        lemma_leads_to_itself(state);
    } else {
        let earlier = state.after_all(inputs.drop_last());
        lemma_pump_is_faithful(state, inputs.drop_last());
        lemma_step_leads_on(earlier, inputs.last());
        lemma_leads_to_chains(
            state,
            earlier,
            state.after_all(inputs),
            state.output_of_all(inputs.drop_last()),
            bytes_read(inputs.drop_last()),
            earlier.output(inputs.last()),
            bytes_of(inputs.last()),
        );
    }
    lemma_leads_to_sums_up(
        state,
        state.after_all(inputs),
        state.output_of_all(inputs),
        bytes_read(inputs),
    );
}

} // verus!
