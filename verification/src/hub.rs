//! The broadcast hub model: a bounded replay buffer over pre-encoded
//! messages and a global sequence numbering of publishes.
//!
//! The hub assigns each published message the next sequence number and keeps
//! the most recent `capacity` messages for replay. A subscriber receives the
//! replay buffer and a cursor equal to the next sequence number, so the
//! replayed history ends exactly where the live stream starts: no gap and no
//! duplication (`lemma_replay_meets_live`). Publishing is total — it takes
//! no error path and does not depend on the subscriber count, so publishing
//! with zero subscribers succeeds like any other publish.
//!
//! The task scheduling and socket fan-out around this model live outside the
//! library; they perform exactly the buffer transitions stated here.

use vstd::prelude::*;

verus! {

/// The byte sequences of a list of buffers, in order.
pub open spec fn views_of(s: Seq<Vec<u8>>) -> Seq<Seq<u8>> {
    Seq::new(s.len(), |i: int| s[i]@)
}

/// The hub state: the replay buffer of the most recent messages, the total
/// number of messages ever published, and how many subscribers are attached.
pub struct BroadcastHub {
    pub capacity: usize,
    pub replay: Vec<Vec<u8>>,
    pub next_seq: u64,
    pub subscribers: usize,
}

impl BroadcastHub {
    /// Structural invariant: the buffer respects its fixed capacity and
    /// never holds more messages than were published.
    pub open spec fn wf(self) -> bool {
        &&& self.capacity >= 1
        &&& self.replay@.len() <= self.capacity
        &&& self.replay@.len() <= self.next_seq
    }

    /// The replayable messages, oldest first, as byte sequences.
    pub open spec fn contents(self) -> Seq<Seq<u8>> {
        views_of(self.replay@)
    }

    /// The sequence number of the oldest replayable message.
    pub open spec fn first_seq(self) -> int {
        self.next_seq - self.replay@.len()
    }

    /// A fresh hub: nothing published, nobody subscribed.
    pub fn new(capacity: usize) -> (h: BroadcastHub)
        requires
            capacity >= 1,
        ensures
            h.wf(),
            h.capacity == capacity,
            h.next_seq == 0,
            h.subscribers == 0,
            h.contents() == Seq::<Seq<u8>>::empty(),
    {
        let h = BroadcastHub { capacity, replay: Vec::new(), next_seq: 0, subscribers: 0 };
        proof {
            assert(h.contents() =~= Seq::<Seq<u8>>::empty());
        }
        h
    }

    /// Publishes one message: it gets the next sequence number and enters
    /// the replay buffer, evicting the oldest message when the buffer is
    /// full. Publishing never fails and never blocks, whatever the
    /// subscriber count — with zero subscribers it is a no-op success.
    pub fn publish(&mut self, msg: Vec<u8>) -> (seq: u64)
        requires
            old(self).wf(),
            old(self).next_seq < u64::MAX,
        ensures
            final(self).wf(),
            final(self).capacity == old(self).capacity,
            final(self).subscribers == old(self).subscribers,
            seq == old(self).next_seq,
            final(self).next_seq == old(self).next_seq + 1,
            old(self).replay@.len() < old(self).capacity ==> final(self).contents()
                == old(self).contents().push(msg@),
            old(self).replay@.len() == old(self).capacity ==> final(self).contents()
                == old(self).contents().subrange(1, old(self).contents().len() as int).push(msg@),
    {
        if self.replay.len() == self.capacity {
            self.replay.remove(0);
            proof {
                assert(self.contents() =~= old(self).contents().subrange(1,
                    old(self).contents().len() as int));
            }
        }
        let ghost mid = self.contents();
        self.replay.push(msg);
        proof {
            assert(self.contents() =~= mid.push(msg@));
        }
        let seq = self.next_seq;
        self.next_seq = self.next_seq + 1;
        seq
    }

    /// Subscribes: hands back a copy of the replay buffer (the history the
    /// new connection must see first) and a cursor equal to the next
    /// sequence number, where its live stream will start.
    pub fn subscribe(&mut self) -> (r: (Vec<Vec<u8>>, u64))
        requires
            old(self).wf(),
            old(self).subscribers < usize::MAX,
        ensures
            final(self).wf(),
            final(self).capacity == old(self).capacity,
            final(self).next_seq == old(self).next_seq,
            final(self).contents() == old(self).contents(),
            final(self).subscribers == old(self).subscribers + 1,
            views_of(r.0@) == old(self).contents(),
            r.1 == old(self).next_seq,
    {
        let mut replayed: Vec<Vec<u8>> = Vec::new();
        let mut i: usize = 0;
        while i < self.replay.len()
            invariant
                i <= self.replay@.len(),
                replayed@.len() == i,
                views_of(replayed@) =~~= self.contents().subrange(0, i as int),
            decreases self.replay@.len() - i,
        {
            let row = crate::codec::clone_bytes(&self.replay[i]);
            let ghost prev = replayed@;
            replayed.push(row);
            proof {
                assert(replayed@.len() == i + 1);
                assert forall|k: int| 0 <= k < i + 1 implies views_of(replayed@)[k]
                    == self.contents().subrange(0, i + 1)[k] by {
                    assert(views_of(replayed@)[k] == replayed@[k]@);
                    assert(self.contents()[k] == self.replay@[k]@);
                    if k < i {
                        assert(replayed@[k] == prev[k]);
                        assert(views_of(prev)[k] == prev[k]@);
                    } else {
                        assert(replayed@[k] == row);
                    }
                }
                assert(views_of(replayed@) =~~= self.contents().subrange(0, i + 1));
            }
            i = i + 1;
        }
        proof {
            assert(self.contents().subrange(0, self.contents().len() as int) =~~= self.contents());
        }
        self.subscribers = self.subscribers + 1;
        let cursor = self.next_seq;
        (replayed, cursor)
    }

    /// Detaches one subscriber.
    pub fn unsubscribe(&mut self)
        requires
            old(self).wf(),
            old(self).subscribers > 0,
        ensures
            final(self).wf(),
            final(self).capacity == old(self).capacity,
            final(self).next_seq == old(self).next_seq,
            final(self).contents() == old(self).contents(),
            final(self).subscribers == old(self).subscribers - 1,
    {
        self.subscribers = self.subscribers - 1;
    }
}

impl BroadcastHub {
    /// The sequence number under which replay item `i` was published.
    pub open spec fn replay_seq(self, i: int) -> int {
        self.first_seq() + i
    }
}

/// The replay a new subscriber receives meets the live stream exactly at its
/// cursor: the replayed messages occupy the consecutive sequence numbers
/// right below the cursor (which `subscribe` returns as `next_seq`), and
/// every message published after subscription gets a number at or above it —
/// no gap, and the history is never repeated in the live stream.
pub proof fn lemma_replay_meets_live(h: BroadcastHub)
    requires
        h.wf(),
    ensures
        h.first_seq() >= 0,
        h.replay_seq(h.contents().len() as int) == h.next_seq,
        forall|i: int| 0 <= i < h.contents().len() ==> #[trigger] h.replay_seq(i) < h.next_seq,
{
}

} // verus!
