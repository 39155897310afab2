use crate::frame::Frame;
use vstd::prelude::*;

verus! {

/// What a received PING leads to.
#[derive(Clone, Copy, Debug, PartialEq, Eq, Structural)]
pub enum PingOutcome {
    /// The peer's ping, to be answered with this acknowledgement.
    Echo(Frame),
    /// The acknowledgement of one of our pings, which is no longer pending.
    Matched,
    /// An acknowledgement of no ping of ours; it is ignored.
    Unsolicited,
}

/// The pings this side sent and the peer has not acknowledged yet, in the
/// order they were sent. Several may be pending; an acknowledgement is
/// matched by its payload.
pub struct Pings {
    pending: Vec<u64>,
}

impl View for Pings {
    type V = Seq<u64>;

    closed spec fn view(&self) -> Seq<u64> {
        self.pending@
    }
}

impl Pings {
    pub fn new() -> (r: Pings)
        ensures
            r@ == Seq::<u64>::empty(),
    {
        Pings { pending: Vec::new() }
    }

    /// Sends a ping with `payload`: it is pending until acknowledged.
    pub fn send_ping(&mut self, payload: u64) -> (r: Frame)
        ensures
            final(self)@ == old(self)@.push(payload),
            r == (Frame::Ping { ack: false, payload }),
    {
        self.pending.push(payload);
        Frame::Ping { ack: false, payload }
    }

    /// Handles a received PING. A ping without ACK is echoed with ACK and
    /// the same payload; an acknowledgement removes the earliest pending
    /// ping with its payload, if there is one.
    pub fn recv_ping(&mut self, ack: bool, payload: u64) -> (r: PingOutcome)
        ensures
            !ack ==> r == (PingOutcome::Echo(Frame::Ping { ack: true, payload })),
            !ack ==> final(self)@ == old(self)@,
            ack && !old(self)@.contains(payload) ==> r == PingOutcome::Unsolicited,
            ack && !old(self)@.contains(payload) ==> final(self)@ == old(self)@,
            ack && old(self)@.contains(payload) ==> r == PingOutcome::Matched,
            ack && old(self)@.contains(payload) ==> (exists|i: int|
                0 <= i < old(self)@.len() && old(self)@[i] == payload
                    && (forall|j: int| 0 <= j < i ==> old(self)@[j] != payload)
                    && final(self)@ == old(self)@.remove(i)),
    {
        if !ack {
            return PingOutcome::Echo(Frame::Ping { ack: true, payload });
        }
        let mut i: usize = 0;
        while i < self.pending.len()
            invariant
                ack,
                self@ == old(self)@,
                i <= self@.len(),
                forall|j: int| 0 <= j < i ==> self@[j] != payload,
            decreases self@.len() - i,
        {
            if self.pending[i] == payload {
                self.pending.remove(i);
                assert(old(self)@.contains(payload));
                return PingOutcome::Matched;
            }
            i = i + 1;
        }
        PingOutcome::Unsolicited
    }
}

} // verus!
