//! The decisions of the fan-out hub.
//!
//! The hub knows its subscribers by identity only: each is a number that
//! the hub hands out on admission. The connections themselves, and every
//! read and write on them, stay with the caller, which reports what
//! happened and does what the hub decides.

use crate::canvas::diff::{encode_pixels, CanvasDiff};
use vstd::prelude::*;

verus! {

/// The kinds of frame that a subscriber can send.
#[derive(Clone, Copy, Debug, PartialEq, Eq, Structural)]
pub enum FrameKind {
    Continuation,
    Text,
    Binary,
    Close,
    Ping,
    Pong,
}

/// One frame to be written to a set of subscribers.
#[derive(Debug)]
pub struct Broadcast {
    /// The payload of the binary frame.
    pub payload: Vec<u8>,
    /// The subscribers to write it to, in order of admission.
    pub recipients: Vec<u64>,
}

/// What the hub holds.
pub struct HubState {
    /// The subscribers, in order of admission.
    pub subscribers: Seq<u64>,
    /// The identity that the next subscriber gets.
    pub next_id: nat,
}

impl HubState {
    /// Subscribers stand in order of admission, which is the order of
    /// their identities, so none occurs twice; and every identity handed
    /// out so far lies below the next one.
    pub open spec fn wf(self) -> bool {
        &&& self.next_id <= u64::MAX
        &&& forall|i: int| 0 <= i < self.subscribers.len() ==> self.subscribers[i] < self.next_id
        &&& forall|i: int, j: int|
            0 <= i < j < self.subscribers.len() ==> self.subscribers[i] < self.subscribers[j]
    }

    /// The subscribers that stay when those in `gone` are evicted.
    pub open spec fn without(self, gone: Seq<u64>) -> Seq<u64> {
        self.subscribers.filter(|id: u64| !gone.contains(id))
    }

    /// The subscribers that leave when those in `gone` are evicted.
    pub open spec fn evicted(self, gone: Seq<u64>) -> Seq<u64> {
        self.subscribers.filter(|id: u64| gone.contains(id))
    }

    /// Whether a frame of this kind ends the subscription.
    pub open spec fn ends_subscription(kind: FrameKind) -> bool {
        kind == FrameKind::Close
    }
}

/// Filtering keeps ascending identities ascending and below any bound
/// that held before.
pub proof fn lemma_filter_keeps_order(ids: Seq<u64>, pred: spec_fn(u64) -> bool, bound: nat)
    requires
        forall|i: int| 0 <= i < ids.len() ==> ids[i] < bound,
        forall|i: int, j: int| 0 <= i < j < ids.len() ==> ids[i] < ids[j],
    ensures
        forall|i: int| 0 <= i < ids.filter(pred).len() ==> ids.filter(pred)[i] < bound,
        forall|i: int, j: int|
            0 <= i < j < ids.filter(pred).len() ==> ids.filter(pred)[i] < ids.filter(pred)[j],
        forall|id: u64| #[trigger] ids.filter(pred).contains(id) ==> ids.contains(id) && pred(id),
        forall|id: u64| #[trigger] ids.contains(id) && pred(id) ==> ids.filter(pred).contains(id),
    decreases ids.len(),
{
    reveal(Seq::filter);
    let kept = ids.filter(pred);
    if ids.len() > 0 {
        let front = ids.drop_last();
        let last = ids.last();
        lemma_filter_keeps_order(front, pred, bound);
        let kept_front = front.filter(pred);
        assert forall|i: int| 0 <= i < kept_front.len() implies kept_front[i] < last by {
            assert(kept_front.contains(kept_front[i]));
            let k = choose|k: int| 0 <= k < front.len() && front[k] == kept_front[i];
            assert(ids[k] < ids[ids.len() - 1]);
        }
        assert forall|id: u64| #[trigger] kept.contains(id) implies ids.contains(id) && pred(
            id,
        ) by {
            if kept.contains(id) {
                let k = choose|k: int| 0 <= k < kept.len() && kept[k] == id;
                if k < kept_front.len() {
                    assert(kept_front.contains(kept_front[k]));
                    let m = choose|m: int| 0 <= m < front.len() && front[m] == id;
                    assert(ids[m] == id);
                } else {
                    assert(ids[ids.len() - 1] == id);
                }
            }
        }
        assert forall|id: u64| #[trigger] ids.contains(id) && pred(id) implies kept.contains(
            id,
        ) by {
            if ids.contains(id) && pred(id) {
                let m = choose|m: int| 0 <= m < ids.len() && ids[m] == id;
                if m < front.len() {
                    assert(front[m] == id);
                    assert(kept_front.contains(id));
                    let k = choose|k: int| 0 <= k < kept_front.len() && kept_front[k] == id;
                    assert(kept[k] == id);
                } else {
                    assert(kept[kept.len() - 1] == id);
                }
            }
        }
    }
}

/// Whether `id` occurs in `ids`.
fn holds(ids: &[u64], id: u64) -> (found: bool)
    ensures
        found == ids@.contains(id),
{
    for k in 0..ids.len()
        invariant
            forall|i: int| 0 <= i < k ==> ids@[i] != id,
    {
        if ids[k] == id {
            return true;
        }
    }
    false
}

/// The fan-out hub: the list of subscribers and the next identity to hand
/// out.
#[derive(Debug)]
pub struct Hub {
    subscribers: Vec<u64>,
    next_id: u64,
}

impl View for Hub {
    type V = HubState;

    closed spec fn view(&self) -> HubState {
        HubState { subscribers: self.subscribers@, next_id: self.next_id as nat }
    }
}

impl Hub {
    /// The list of subscribers is in order and holds nobody twice.
    pub open spec fn wf(&self) -> bool {
        self@.wf()
    }

    /// A hub without subscribers.
    pub fn new() -> (hub: Self)
        ensures
            hub.wf(),
            hub@ == (HubState { subscribers: Seq::empty(), next_id: 0 }),
    {
        Hub { subscribers: Vec::new(), next_id: 0 }
    }

    /// Number of subscribers.
    pub fn subscriber_count(&self) -> (count: usize)
        ensures
            count == self@.subscribers.len(),
    {
        self.subscribers.len()
    }

    /// The subscribers, in order of admission.
    pub fn subscribers(&self) -> (ids: &[u64])
        ensures
            ids@ == self@.subscribers,
    {
        self.subscribers.as_slice()
    }

    /// Admits a new subscriber at the end of the list and returns its
    /// identity, one that no subscriber has had before. Returns `None`,
    /// and changes nothing, once the identities are used up.
    pub fn subscribe(&mut self) -> (joined: Option<u64>)
        requires
            old(self).wf(),
        ensures
            final(self).wf(),
            match joined {
                Some(id) => {
                    &&& old(self)@.next_id < u64::MAX
                    &&& id == old(self)@.next_id
                    &&& !old(self)@.subscribers.contains(id)
                    &&& final(self)@ == (HubState {
                        subscribers: old(self)@.subscribers.push(id),
                        next_id: old(self)@.next_id + 1,
                    })
                },
                None => old(self)@.next_id == u64::MAX && final(self)@ == old(self)@,
            },
    {
        if self.next_id == u64::MAX {
            return None;
        }
        let id = self.next_id;
        let ghost before = self.subscribers@;
        self.subscribers.push(id);
        self.next_id = id + 1;
        proof {
            let after = self.subscribers@;
            let start = old(self)@;
            assert(start.wf());
            assert(start.subscribers == before);
            assert(start.next_id == id);
            assert forall|i: int| 0 <= i < after.len() implies after[i] < id + 1 by {
                if i < before.len() {
                    assert(before[i] < id);
                }
            }
            assert forall|i: int, j: int| 0 <= i < j < after.len() implies after[i] < after[j] by {
                assert(before[i] < id);
                if j < before.len() {
                    assert(before[i] < before[j]);
                }
            }
            if before.contains(id) {
                let k = choose|k: int| 0 <= k < before.len() && before[k] == id;
                assert(before[k] < id);
            }
        }
        Some(id)
    }

    /// Decides what to send for a diff: one binary frame that carries the
    /// whole diff, to every subscriber. An empty diff is not sent.
    pub fn on_diff(&self, diff: &CanvasDiff) -> (broadcast: Option<Broadcast>)
        ensures
            broadcast.is_some() == (diff@.len() > 0),
            broadcast.is_some() ==> broadcast.unwrap().payload@ == encode_pixels(diff@)
                && broadcast.unwrap().recipients@ == self@.subscribers,
    {
        if diff.is_empty() {
            return None;
        }
        let recipients = self.subscribers.clone();
        assert(recipients@ =~= self.subscribers@);
        Some(Broadcast { payload: diff.to_bytes(), recipients })
    }

    /// Takes the outcome of a broadcast: every subscriber named in
    /// `failed`, those whose write failed or missed the deadline, is
    /// evicted. Returns the subscribers that left; the others stay in
    /// order.
    pub fn on_delivered(&mut self, failed: &[u64]) -> (evicted: Vec<u64>)
        requires
            old(self).wf(),
        ensures
            final(self).wf(),
            final(self)@.next_id == old(self)@.next_id,
            final(self)@.subscribers == old(self)@.without(failed@),
            evicted@ == old(self)@.evicted(failed@),
    {
        let ghost start = self@;
        let ghost before = self.subscribers@;
        let ghost stays = |id: u64| !failed@.contains(id);
        let ghost leaves = |id: u64| failed@.contains(id);
        let mut kept: Vec<u64> = Vec::new();
        let mut evicted: Vec<u64> = Vec::new();
        proof {
            reveal(Seq::filter);
            assert(before.take(0).filter(stays) =~= Seq::<u64>::empty());
            assert(before.take(0).filter(leaves) =~= Seq::<u64>::empty());
        }
        for k in 0..self.subscribers.len()
            invariant
                start.wf(),
                start.subscribers == before,
                start.next_id == self.next_id,
                self.subscribers@ == before,
                self.next_id == old(self).next_id,
                stays == |id: u64| !failed@.contains(id),
                leaves == |id: u64| failed@.contains(id),
                kept@ == before.take(k as int).filter(stays),
                evicted@ == before.take(k as int).filter(leaves),
        {
            let id = self.subscribers[k];
            proof {
                assert(before.take(k + 1) =~= before.take(k as int).push(id));
                before.take(k as int).lemma_filter_push(id, stays);
                before.take(k as int).lemma_filter_push(id, leaves);
            }
            if holds(failed, id) {
                evicted.push(id);
            } else {
                kept.push(id);
            }
        }
        proof {
            assert(before.take(before.len() as int) =~= before);
            lemma_filter_keeps_order(before, stays, start.next_id);
        }
        self.subscribers = kept;
        evicted
    }

    /// Takes a frame that a subscriber sent. A close frame evicts the
    /// subscriber; any other frame is ignored. Returns whether somebody
    /// was evicted.
    pub fn on_frame(&mut self, subscriber: u64, kind: FrameKind) -> (evicted: bool)
        requires
            old(self).wf(),
        ensures
            final(self).wf(),
            final(self)@.next_id == old(self)@.next_id,
            final(self)@.subscribers == if HubState::ends_subscription(kind) {
                old(self)@.without(seq![subscriber])
            } else {
                old(self)@.subscribers
            },
            evicted == (HubState::ends_subscription(kind) && old(self)@.subscribers.contains(
                subscriber,
            )),
    {
        match kind {
            FrameKind::Close => self.on_read_error(subscriber),
            _ => false,
        }
    }

    /// Takes a failed read from a subscriber, who is evicted. Returns
    /// whether the subscriber was on the list.
    pub fn on_read_error(&mut self, subscriber: u64) -> (evicted: bool)
        requires
            old(self).wf(),
        ensures
            final(self).wf(),
            final(self)@.next_id == old(self)@.next_id,
            final(self)@.subscribers == old(self)@.without(seq![subscriber]),
            evicted == old(self)@.subscribers.contains(subscriber),
    {
        let gone: [u64; 1] = [subscriber];
        let ghost before = self@;
        let left = self.on_delivered(gone.as_slice());
        proof {
            assert(gone@ =~= seq![subscriber]);
            assert(seq![subscriber].contains(subscriber)) by {
                assert(seq![subscriber][0] == subscriber);
            }
            lemma_filter_keeps_order(
                before.subscribers,
                |id: u64| seq![subscriber].contains(id),
                before.next_id,
            );
            if left@.len() > 0 {
                assert(left@.contains(left@[0]));
            }
            if before.subscribers.contains(subscriber) {
                assert(left@.contains(subscriber));
            }
        }
        left.len() > 0
    }
}

} // verus!
