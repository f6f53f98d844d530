//! The state of the pump and its transitions.

use crate::events::Event;
use crate::ping::server::{decode_stream, lemma_decode_concat, PingServerError, ServerState};
use crate::ping::stream::lemma_progress_shape;
use crate::pump::PumpAction;
use vstd::prelude::*;

verus! {

/// What the pump holds.
pub struct PumpState {
    /// The ping server.
    pub server: ServerState,
    /// Bytes read from the connection that the server has not taken yet.
    pub unread: Seq<u8>,
    /// Most slots that are reserved on the event channel at a time.
    pub channel_capacity: nat,
    /// Whether the server could do nothing for want of input when it was
    /// last driven.
    pub must_block: bool,
    /// The action that the caller was told last and whose outcome the
    /// pump waits for.
    pub pending: PumpAction,
}

impl PumpState {
    /// The server is well formed and the channel has room for an event.
    pub open spec fn wf(self) -> bool {
        &&& self.server.wf()
        &&& 0 < self.channel_capacity <= usize::MAX
    }

    /// How many slots to reserve: one for each event that is ready, but
    /// no more than the channel holds.
    pub open spec fn slots_wanted(self) -> nat {
        if self.server.egress.len() <= self.channel_capacity {
            self.server.egress.len()
        } else {
            self.channel_capacity
        }
    }

    /// Every event still owed: those ready in the server, then those of
    /// the whole records among the bytes that wait, in the server or
    /// before it.
    pub open spec fn outstanding(self) -> Seq<Event> {
        self.server.egress + decode_stream(self.server.ingest + self.unread)
    }

    /// The state once the caller is told to reserve slots.
    pub open spec fn reserving(self) -> PumpState {
        PumpState { pending: PumpAction::Reserve(self.slots_wanted() as usize), ..self }
    }

    /// One turn of the server: `progress`, then `ingest` of the unread
    /// bytes, of which those that did not fit stay unread.
    pub open spec fn after_turn(self) -> PumpState {
        let parsed = self.server.after_progress();
        let taken = parsed.accepted(self.unread.len());
        PumpState {
            server: parsed.after_ingest(self.unread),
            unread: self.unread.skip(taken as int),
            must_block: self.server.progress_signal() == Err::<(), PingServerError>(
                PingServerError::IngestEmpty,
            ),
            ..self
        }
    }

    /// Drives the server from the point where `progress` is due: turn
    /// after turn, until events are ready, which calls for slots, or
    /// no unread bytes were left for the turn, which calls for a read.
    pub open spec fn driven(self) -> PumpState
        decreases self.unread.len(),
        when self.server.wf()
        via Self::driven_decreases
    {
        let turned = self.after_turn();
        if self.unread.len() == 0 {
            PumpState { pending: PumpAction::TryRead, ..turned }
        } else if turned.server.egress.len() > 0 {
            turned.reserving()
        } else {
            turned.driven()
        }
    }

    #[via_fn]
    proof fn driven_decreases(self) {
        let turned = self.after_turn();
        if self.unread.len() != 0 && turned.server.egress.len() == 0 {
            lemma_turn(self);
        }
    }

    /// Drives the server from the top of the loop: if events are ready,
    /// slots are called for; else `progress` is due.
    pub open spec fn resumed(self) -> PumpState {
        if self.server.egress.len() > 0 {
            self.reserving()
        } else {
            self.driven()
        }
    }

    /// The state once the caller is told to stop.
    pub open spec fn stopped(self) -> PumpState {
        PumpState { pending: PumpAction::Exit, ..self }
    }

    /// The pump of a new connection, before it was driven for the first
    /// time.
    pub open spec fn fresh(server: ServerState, channel_capacity: nat) -> PumpState {
        PumpState {
            server,
            unread: Seq::empty(),
            channel_capacity,
            must_block: false,
            pending: PumpAction::Exit,
        }
    }

    /// The events that go to the channel when `granted` slots were
    /// reserved: the oldest ready ones, one for each slot.
    pub open spec fn slots_output(self, granted: nat) -> Seq<Event> {
        self.server.egress.take(self.server.handed_out(granted) as int)
    }

    /// The state after `granted` slots were reserved: the events are
    /// gone, and the server was driven on.
    pub open spec fn after_slots(self, granted: nat) -> PumpState {
        PumpState { server: self.server.after_egress(granted), ..self }.driven()
    }

    /// The state after a read gave `data`. No data means that the
    /// connection was closed, and the pump stops. Else the server takes
    /// what fits, the rest stays unread, and the loop starts over.
    pub open spec fn after_read(self, data: Seq<u8>) -> PumpState {
        if data.len() == 0 {
            self.stopped()
        } else {
            let offered = self.unread + data;
            let taken = self.server.accepted(offered.len());
            PumpState {
                server: self.server.after_ingest(offered),
                unread: offered.skip(taken as int),
                ..self
            }.resumed()
        }
    }

    /// The state after a read that would have blocked: if the server
    /// could do nothing for want of input, a read that waits is called
    /// for; else the loop starts over.
    pub open spec fn after_would_block(self) -> PumpState {
        if self.must_block {
            PumpState { pending: PumpAction::BlockingRead, ..self }
        } else {
            self.resumed()
        }
    }
}

/// What can happen to a pump.
pub enum PumpInput {
    /// This many slots were reserved on the event channel.
    Slots(nat),
    /// The event channel was closed.
    ChannelClosed,
    /// A read gave these bytes; none if the connection was closed.
    Read(Seq<u8>),
    /// A read that does not block found nothing.
    WouldBlock,
    /// A read failed.
    ReadFailed,
}

impl PumpState {
    /// The state after `input`.
    pub open spec fn after(self, input: PumpInput) -> PumpState {
        match input {
            PumpInput::Slots(granted) => self.after_slots(granted),
            PumpInput::ChannelClosed => self.stopped(),
            PumpInput::Read(data) => self.after_read(data),
            PumpInput::WouldBlock => self.after_would_block(),
            PumpInput::ReadFailed => self.stopped(),
        }
    }

    /// The events that `input` sends to the channel.
    pub open spec fn output(self, input: PumpInput) -> Seq<Event> {
        match input {
            PumpInput::Slots(granted) => self.slots_output(granted),
            _ => Seq::empty(),
        }
    }

    /// The state after each of `inputs`, in order.
    pub open spec fn after_all(self, inputs: Seq<PumpInput>) -> PumpState
        decreases inputs.len(),
    {
        if inputs.len() == 0 {
            self
        } else {
            self.after_all(inputs.drop_last()).after(inputs.last())
        }
    }

    /// All events that `inputs` send to the channel, in order.
    pub open spec fn output_of_all(self, inputs: Seq<PumpInput>) -> Seq<Event>
        decreases inputs.len(),
    {
        if inputs.len() == 0 {
            Seq::empty()
        } else {
            self.output_of_all(inputs.drop_last()) + self.after_all(inputs.drop_last()).output(
                inputs.last(),
            )
        }
    }
}

/// All bytes that the reads among `inputs` gave, in order.
pub open spec fn bytes_read(inputs: Seq<PumpInput>) -> Seq<u8>
    decreases inputs.len(),
{
    if inputs.len() == 0 {
        Seq::empty()
    } else {
        bytes_read(inputs.drop_last()) + match inputs.last() {
            PumpInput::Read(data) => data,
            _ => Seq::empty(),
        }
    }
}

/// One turn keeps the server well formed and loses no byte and no event;
/// and a turn that leaves no event ready has taken at least one of the
/// unread bytes, if there were any.
pub proof fn lemma_turn(state: PumpState)
    requires
        state.server.wf(),
    ensures
        state.after_turn().server.wf(),
        state.after_turn().outstanding() == state.outstanding(),
        state.after_turn().unread.len() <= state.unread.len(),
        state.unread.len() > 0 && state.after_turn().server.egress.len() == 0
            ==> state.after_turn().unread.len() < state.unread.len(),
{
    let parsed = state.server.after_progress();
    let taken = parsed.accepted(state.unread.len()) as int;
    let turned = state.after_turn();
    lemma_progress_shape(state.server);
    let consumed = state.server.consumed() as int;
    let head = state.server.ingest.take(consumed);
    let tail = state.server.ingest.skip(consumed);
    assert(state.server.ingest + state.unread =~= head + (tail + state.unread));
    lemma_decode_concat(head, tail + state.unread);
    assert(turned.server.ingest + turned.unread =~= tail + state.unread);
    assert(turned.outstanding() =~= state.outstanding());
}

/// Driving the server keeps the state well formed and loses no byte and
/// no event. It ends by calling for slots, with an event ready and as
/// many slots as are ready or as the channel holds, or for a read that
/// does not block, with no byte unread.
pub proof fn lemma_driven(state: PumpState)
    requires
        state.wf(),
    ensures
        state.driven().wf(),
        state.driven().outstanding() == state.outstanding(),
        state.driven().channel_capacity == state.channel_capacity,
        state.driven().pending == PumpAction::TryRead && state.driven().unread.len() == 0 || {
            &&& state.driven().server.egress.len() > 0
            &&& state.driven().pending == PumpAction::Reserve(
                state.driven().slots_wanted() as usize,
            )
        },
    decreases state.unread.len(),
{
    let turned = state.after_turn();
    lemma_turn(state);
    lemma_progress_shape(state.server);
    if state.unread.len() == 0 {
        assert(state.unread.take(0) =~= Seq::<u8>::empty());
        assert(state.server.after_progress().ingest + Seq::<u8>::empty()
            =~= state.server.after_progress().ingest);
    } else if turned.server.egress.len() > 0 {
    } else {
        lemma_driven(turned);
    }
}

} // verus!
