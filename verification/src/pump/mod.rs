//! The decisions of the byte pump that couples one connection to a ping
//! server.
//!
//! The pump never reads, writes or waits. It says what the caller is to do
//! next (reserve slots on the event channel, read without blocking, read
//! and wait, or stop) and takes the outcome. Between two such actions it
//! drives the server as far as it will go.

use crate::events::Event;
use crate::ping::server::{decode_stream, drop_front, PingServer, PingServerError};
use crate::pump::state::{lemma_driven, lemma_turn, PumpState};
use vstd::prelude::*;

pub mod laws;
pub mod state;

verus! {

/// What the caller of the pump is to do next.
#[derive(Clone, Copy, Debug, PartialEq, Eq, Structural)]
pub enum PumpAction {
    /// Reserve this many slots on the event channel, waiting for them if
    /// need be, then report how many were granted.
    Reserve(usize),
    /// Read from the connection without blocking and report the outcome.
    TryRead,
    /// Read from the connection, waiting for data, and report the outcome.
    BlockingRead,
    /// Stop: the connection or the event channel is gone.
    Exit,
}

/// The pump of one connection: the ping server, the bytes read from the
/// connection that the server has not taken yet, and the action whose
/// outcome is awaited.
#[derive(Debug)]
pub struct PingPump {
    server: PingServer,
    unread: Vec<u8>,
    channel_capacity: usize,
    must_block: bool,
    pending: PumpAction,
}

impl View for PingPump {
    type V = PumpState;

    closed spec fn view(&self) -> PumpState {
        PumpState {
            server: self.server@,
            unread: self.unread@,
            channel_capacity: self.channel_capacity as nat,
            must_block: self.must_block,
            pending: self.pending,
        }
    }
}

impl PingPump {
    /// The state is sound and fits the pending action.
    pub open spec fn wf(&self) -> bool {
        self@.wf()
    }

    /// Calls for slots: one for each ready event, within the channel's
    /// capacity.
    fn reserve(&mut self)
        requires
            old(self)@.wf(),
            old(self)@.server.egress.len() > 0,
        ensures
            final(self)@ == old(self)@.reserving(),
            final(self).wf(),
    {
        let ready = self.server.ready_events();
        let wanted = if ready <= self.channel_capacity {
            ready
        } else {
            self.channel_capacity
        };
        self.pending = PumpAction::Reserve(wanted);
    }

    /// Drives the server, turn after turn, until it calls for slots or
    /// for a read.
    fn drive(&mut self)
        requires
            old(self)@.wf(),
        ensures
            final(self)@ == old(self)@.driven(),
            final(self).wf(),
            final(self)@.outstanding() == old(self)@.outstanding(),
    {
        proof {
            lemma_driven(self@);
        }
        loop
            invariant_except_break
                self@.driven() == old(self)@.driven(),
            invariant
                self@.wf(),
                old(self)@.wf(),
                old(self)@.driven().wf(),
                old(self)@.driven().outstanding() == old(self)@.outstanding(),
            ensures
                self@ == old(self)@.driven(),
            decreases self.unread@.len(),
        {
            let ghost before = self@;
            proof {
                lemma_turn(before);
            }
            let had_unread = self.unread.len() > 0;
            let signal = self.server.progress();
            self.must_block = match signal {
                Err(PingServerError::IngestEmpty) => true,
                _ => false,
            };
            if !had_unread {
                proof {
                    assert(before.unread.take(0) =~= Seq::<u8>::empty());
                    assert(self.server@.ingest + Seq::<u8>::empty() =~= self.server@.ingest);
                    assert(before.unread.skip(0) =~= before.unread);
                }
                self.pending = PumpAction::TryRead;
                break ;
            }
            match self.server.ingest(self.unread.as_slice()) {
                Ok(()) => {
                    self.unread.clear();
                    assert(self.unread@ =~= before.unread.skip(before.unread.len() as int));
                },
                Err(PingServerError::IngestFull { read }) => {
                    drop_front(&mut self.unread, read);
                },
                Err(_) => {},
            }
            assert(self@ == before.after_turn());
            if self.server.ready_events() > 0 {
                self.reserve();
                break ;
            }
        }
    }

    /// Drives the server from the top of the loop.
    fn resume(&mut self)
        requires
            old(self)@.wf(),
        ensures
            final(self)@ == old(self)@.resumed(),
            final(self).wf(),
            final(self)@.outstanding() == old(self)@.outstanding(),
    {
        if self.server.ready_events() > 0 {
            self.reserve();
        } else {
            self.drive();
        }
    }

    /// The pump for a new connection, driven up to its first action.
    pub fn new(server: PingServer, channel_capacity: usize) -> (pump: Self)
        requires
            server.wf(),
            channel_capacity > 0,
        ensures
            pump.wf(),
            pump@ == PumpState::fresh(server@, channel_capacity as nat).resumed(),
    {
        let mut pump = PingPump {
            server,
            unread: Vec::new(),
            channel_capacity,
            must_block: false,
            pending: PumpAction::Exit,
        };
        pump.resume();
        pump
    }

    /// The action that the caller was told last.
    pub fn pending(&self) -> (action: PumpAction)
        ensures
            action == self@.pending,
    {
        self.pending
    }

    /// Number of bytes read from the connection that the server has not
    /// taken yet.
    pub fn unread_len(&self) -> (count: usize)
        ensures
            count == self@.unread.len(),
    {
        self.unread.len()
    }

    /// The ping server that the pump drives.
    pub fn server(&self) -> (server: &PingServer)
        ensures
            server@ == self@.server,
    {
        &self.server
    }

    /// Takes the grant of `granted` slots on the event channel: returns
    /// the events to put into them, oldest first, and drives the server
    /// on. Returns the next action with them.
    pub fn on_slots(&mut self, granted: usize) -> (sent: (Vec<Event>, PumpAction))
        requires
            old(self).wf(),
        ensures
            final(self).wf(),
            final(self)@ == old(self)@.after_slots(granted as nat),
            sent.0@ == old(self)@.slots_output(granted as nat),
            sent.1 == final(self)@.pending,
            sent.0@ + final(self)@.outstanding() == old(self)@.outstanding(),
    {
        let events = self.server.egress(granted);
        let ghost drained = self@;
        self.drive();
        proof {
            let rest = drained.server.egress;
            let bytes = drained.server.ingest + drained.unread;
            assert(events@ + (rest + decode_stream(bytes)) =~= (events@ + rest) + decode_stream(
                bytes,
            ));
            assert(events@ + rest =~= old(self)@.server.egress);
        }
        (events, self.pending)
    }

    /// Takes the news that the event channel is closed: the pump stops.
    pub fn on_channel_closed(&mut self) -> (action: PumpAction)
        ensures
            final(self)@ == old(self)@.stopped(),
            action == PumpAction::Exit,
    {
        self.pending = PumpAction::Exit;
        PumpAction::Exit
    }

    /// Takes the bytes that a read gave. An empty read means that the
    /// connection is closed, and the pump stops. Else the server takes
    /// what fits, and the pump goes back to the top of its loop.
    pub fn on_read(&mut self, data: &[u8]) -> (action: PumpAction)
        requires
            old(self).wf(),
        ensures
            final(self).wf(),
            final(self)@ == old(self)@.after_read(data@),
            action == final(self)@.pending,
            final(self)@.outstanding() == old(self)@.server.egress + decode_stream(
                old(self)@.server.ingest + old(self)@.unread + data@,
            ),
    {
        if data.len() == 0 {
            assert(old(self)@.unread + data@ =~= old(self)@.unread);
            assert(old(self)@.server.ingest + old(self)@.unread + data@ =~= old(
                self,
            )@.server.ingest + old(self)@.unread);
            self.pending = PumpAction::Exit;
            return PumpAction::Exit;
        }
        self.unread.extend_from_slice(data);
        let ghost offered = old(self)@.unread + data@;
        let ghost taken = old(self)@.server.accepted(offered.len()) as int;
        assert(self.unread@ =~= offered);
        assert(offered.len() == self.unread.len());
        match self.server.ingest(self.unread.as_slice()) {
            Ok(()) => {
                self.unread.clear();
                assert(self.unread@ =~= offered.skip(taken));
            },
            Err(PingServerError::IngestFull { read }) => {
                drop_front(&mut self.unread, read);
                assert(self.unread@ == offered.skip(taken));
            },
            Err(_) => {},
        }
        proof {
            assert(self@.unread == offered.skip(taken));
            assert(self@.server.ingest == old(self)@.server.ingest + offered.take(taken));
            assert(self@.server.ingest + self@.unread =~= old(self)@.server.ingest + (
            offered.take(taken) + offered.skip(taken)));
            assert(offered.take(taken) + offered.skip(taken) =~= offered);
            assert(old(self)@.server.ingest + offered =~= old(self)@.server.ingest + old(
                self,
            )@.unread + data@);
        }
        self.resume();
        self.pending
    }

    /// Takes the news that a read without blocking found nothing. If the
    /// server could do nothing for want of input, the next read is to
    /// wait; else the pump goes back to the top of its loop.
    pub fn on_would_block(&mut self) -> (action: PumpAction)
        requires
            old(self).wf(),
        ensures
            final(self).wf(),
            final(self)@ == old(self)@.after_would_block(),
            action == final(self)@.pending,
            final(self)@.outstanding() == old(self)@.outstanding(),
    {
        if self.must_block {
            self.pending = PumpAction::BlockingRead;
        } else {
            self.resume();
        }
        self.pending
    }

    /// Takes the news that a read failed: the pump stops.
    pub fn on_read_failed(&mut self) -> (action: PumpAction)
        ensures
            final(self)@ == old(self)@.stopped(),
            action == PumpAction::Exit,
    {
        self.pending = PumpAction::Exit;
        PumpAction::Exit
    }
}

} // verus!
