use crate::client::Role;
use crate::error::UserError;
use crate::frame::{
    Frame, Reason, StreamId, CONTINUATION, END_HEADERS, HEADERS, MAX_STREAM_ID, PUSH_PROMISE,
};
use crate::state::StateError;
use vstd::prelude::*;

verus! {

/// What the connection knows of its streams' ids, as mathematical values.
pub ghost struct StreamsView {
    pub role: Role,
    /// The id the next stream this side opens will get.
    pub next_local_id: nat,
    /// The highest id of a stream the peer opened, refused ones included;
    /// zero when none.
    pub highest_remote_id: nat,
    /// The highest id of a stream of the peer that this side accepted and
    /// processes; zero when none.
    pub last_accepted_id: nat,
    /// How many streams the peer may have open at once.
    pub max_concurrent_remote: nat,
    /// How many streams the peer has open.
    pub num_remote_open: nat,
    /// The last stream id of the GOAWAY this side sent, if it sent one.
    pub go_away_sent: Option<nat>,
    /// The last stream id of the GOAWAY the peer sent, if it sent one.
    pub go_away_recv: Option<nat>,
    /// The stream whose header block is still being received.
    pub continuation_expected: Option<nat>,
    /// The ids of the streams this side opened, in order.
    pub opened_local: Seq<nat>,
}

/// The id bookkeeping of one connection: which ids each side may open
/// next, how many peer streams are open, GOAWAY in both directions, and a
/// header block that is still being received.
pub struct Streams {
    role: Role,
    next_local_id: u32,
    highest_remote_id: u32,
    last_accepted_id: u32,
    max_concurrent_remote: u32,
    num_remote_open: u32,
    go_away_sent: Option<u32>,
    go_away_recv: Option<u32>,
    continuation_expected: Option<u32>,
    opened_local: Ghost<Seq<nat>>,
}

pub open spec fn opt_nat(o: Option<u32>) -> Option<nat> {
    match o {
        Some(x) => Some(x as nat),
        None => None,
    }
}

impl View for Streams {
    type V = StreamsView;

    closed spec fn view(&self) -> StreamsView {
        StreamsView {
            role: self.role,
            next_local_id: self.next_local_id as nat,
            highest_remote_id: self.highest_remote_id as nat,
            last_accepted_id: self.last_accepted_id as nat,
            max_concurrent_remote: self.max_concurrent_remote as nat,
            num_remote_open: self.num_remote_open as nat,
            go_away_sent: opt_nat(self.go_away_sent),
            go_away_recv: opt_nat(self.go_away_recv),
            continuation_expected: opt_nat(self.continuation_expected),
            opened_local: self.opened_local@,
        }
    }
}

/// Whether a frame of type `kind` on stream `id` may arrive while
/// `expected` names the stream whose header block is unfinished: then only
/// a CONTINUATION of that stream may, and otherwise no CONTINUATION may.
pub open spec fn frame_admitted(expected: Option<nat>, kind: u8, id: nat) -> bool {
    match expected {
        Some(x) => kind == CONTINUATION && id == x,
        None => kind != CONTINUATION,
    }
}

/// Whether a frame leaves a header block unfinished.
pub open spec fn opens_header_block(kind: u8, flags: u8) -> bool {
    (kind == HEADERS || kind == PUSH_PROMISE) && flags & END_HEADERS == 0
}

impl StreamsView {
    pub open spec fn wf(self) -> bool {
        &&& self.role.opens(self.next_local_id)
        &&& self.next_local_id <= MAX_STREAM_ID + 2
        &&& self.highest_remote_id <= MAX_STREAM_ID
        &&& self.last_accepted_id <= self.highest_remote_id
        &&& forall|i: int|
            0 <= i < self.opened_local.len() ==> #[trigger] self.opened_local[i]
                < self.next_local_id
        &&& forall|i: int, j: int|
            0 <= i < j < self.opened_local.len() ==> self.opened_local[i]
                < self.opened_local[j]
        &&& self.continuation_expected matches Some(x) ==> x <= MAX_STREAM_ID
        &&& self.go_away_sent matches Some(l) ==> l <= MAX_STREAM_ID
    }

    /// Whether the peer may open stream `id` now.
    pub open spec fn admits_remote(self, id: nat) -> bool {
        &&& self.role.peer().opens(id)
        &&& id > self.highest_remote_id
        &&& !(self.go_away_sent matches Some(l) && id > l)
        &&& self.num_remote_open < self.max_concurrent_remote
    }
}

impl Streams {
    /// A connection's ids before any stream: clients open 1 first, servers
    /// 2; the peer may have `max_concurrent_remote` streams open at once.
    pub fn new(role: Role, max_concurrent_remote: u32) -> (r: Streams)
        ensures
            r@.wf(),
            r@.role == role,
            r@.next_local_id == (if role is Client { 1nat } else { 2nat }),
            r@.highest_remote_id == 0,
            r@.last_accepted_id == 0,
            r@.max_concurrent_remote == max_concurrent_remote,
            r@.num_remote_open == 0,
            r@.go_away_sent is None,
            r@.go_away_recv is None,
            r@.continuation_expected is None,
            r@.opened_local == Seq::<nat>::empty(),
    {
        let next: u32 = match role {
            Role::Client => 1,
            Role::Server => 2,
        };
        Streams {
            role,
            next_local_id: next,
            highest_remote_id: 0,
            last_accepted_id: 0,
            max_concurrent_remote,
            num_remote_open: 0,
            go_away_sent: None,
            go_away_recv: None,
            continuation_expected: None,
            opened_local: Ghost(Seq::empty()),
        }
    }

    /// Opens a stream on this side. After the peer's GOAWAY no stream is
    /// opened (REFUSED_STREAM); past the last 31-bit id none can be.
    pub fn open_local(&mut self) -> (r: Result<StreamId, StateError>)
        requires
            old(self)@.wf(),
        ensures
            final(self)@.wf(),
            old(self)@.go_away_recv is Some ==> r == Err::<StreamId, StateError>(
                StateError::Stream(Reason::RefusedStream),
            ),
            old(self)@.go_away_recv is None && old(self)@.next_local_id > MAX_STREAM_ID ==> r
                == Err::<StreamId, StateError>(StateError::User(UserError::OverflowedStreamId)),
            old(self)@.go_away_recv is None && old(self)@.next_local_id <= MAX_STREAM_ID ==> r is Ok,
            r is Err ==> final(self)@ == old(self)@,
            r matches Ok(id) ==> {
                &&& old(self)@.go_away_recv is None
                &&& id.wf()
                &&& id.spec_id() == old(self)@.next_local_id
                &&& final(self)@ == (StreamsView {
                    next_local_id: old(self)@.next_local_id + 2,
                    opened_local: old(self)@.opened_local.push(id.spec_id()),
                    ..old(self)@
                })
            },
    {
        if self.go_away_recv.is_some() {
            return Err(StateError::Stream(Reason::RefusedStream));
        }
        if self.next_local_id > MAX_STREAM_ID {
            return Err(StateError::User(UserError::OverflowedStreamId));
        }
        let id = StreamId::new(self.next_local_id);
        self.opened_local = Ghost(self.opened_local@.push(self.next_local_id as nat));
        self.next_local_id = self.next_local_id + 2;
        Ok(id)
    }

    /// The peer opens stream `id` with HEADERS. An id of the wrong parity
    /// or not above every id the peer opened before is a PROTOCOL_ERROR of
    /// the connection, and changes nothing. After this side's GOAWAY a
    /// stream above its last id is refused, and so is one beyond the
    /// concurrency limit; such a refusal is a REFUSED_STREAM of that stream
    /// alone, and its id still counts as used, so the peer cannot open a
    /// lower one afterwards.
    pub fn open_remote(&mut self, id: StreamId) -> (r: Result<(), StateError>)
        requires
            old(self)@.wf(),
            id.wf(),
        ensures
            final(self)@.wf(),
            r is Ok <==> old(self)@.admits_remote(id.spec_id()),
            !old(self)@.role.peer().opens(id.spec_id()) || id.spec_id()
                <= old(self)@.highest_remote_id ==> r == Err::<(), StateError>(
                StateError::Connection(Reason::ProtocolError),
            ) && final(self)@ == old(self)@,
            r is Err && old(self)@.role.peer().opens(id.spec_id()) && id.spec_id() > old(
                self,
            )@.highest_remote_id ==> r == Err::<(), StateError>(
                StateError::Stream(Reason::RefusedStream),
            ) && final(self)@ == (StreamsView { highest_remote_id: id.spec_id(), ..old(self)@ }),
            r is Ok ==> final(self)@ == (StreamsView {
                highest_remote_id: id.spec_id(),
                last_accepted_id: id.spec_id(),
                num_remote_open: old(self)@.num_remote_open + 1,
                ..old(self)@
            }),
    {
        if !self.role.is_valid_remote_stream_id(id) || id.as_u32() <= self.highest_remote_id {
            return Err(StateError::Connection(Reason::ProtocolError));
        }
        let refused_by_go_away = match self.go_away_sent {
            Some(last) => id.as_u32() > last,
            None => false,
        };
        if refused_by_go_away || self.num_remote_open >= self.max_concurrent_remote {
            self.highest_remote_id = id.as_u32();
            return Err(StateError::Stream(Reason::RefusedStream));
        }
        self.highest_remote_id = id.as_u32();
        self.last_accepted_id = id.as_u32();
        self.num_remote_open = self.num_remote_open + 1;
        Ok(())
    }

    /// A stream the peer opened has closed.
    pub fn close_remote(&mut self)
        requires
            old(self)@.wf(),
            old(self)@.num_remote_open > 0,
        ensures
            final(self)@ == (StreamsView {
                num_remote_open: (old(self)@.num_remote_open - 1) as nat,
                ..old(self)@
            }),
    {
        self.num_remote_open = self.num_remote_open - 1;
    }

    /// Starts shutdown: the GOAWAY to send names the highest stream of the
    /// peer that this side accepted, and from now on no peer stream above it is accepted. A second
    /// GOAWAY names the same stream as the first.
    pub fn go_away(&mut self, reason: Reason) -> (r: Frame)
        requires
            old(self)@.wf(),
        ensures
            final(self)@.wf(),
            ({
                let last = match old(self)@.go_away_sent {
                    Some(l) => l,
                    None => old(self)@.last_accepted_id,
                };
                &&& final(self)@ == (StreamsView { go_away_sent: Some(last), ..old(self)@ })
                &&& r matches Frame::GoAway { last_stream_id, reason: rr } && last_stream_id.spec_id()
                    == last && last_stream_id.wf() && rr == reason
            }),
    {
        let last = match self.go_away_sent {
            Some(l) => l,
            None => self.last_accepted_id,
        };
        self.go_away_sent = Some(last);
        Frame::GoAway { last_stream_id: StreamId::new(last), reason }
    }

    /// Records the peer's GOAWAY; from now on this side opens no stream.
    pub fn recv_go_away(&mut self, last_stream_id: StreamId)
        requires
            old(self)@.wf(),
        ensures
            final(self)@.wf(),
            final(self)@ == (StreamsView {
                go_away_recv: Some(last_stream_id.spec_id()),
                ..old(self)@
            }),
    {
        self.go_away_recv = Some(last_stream_id.as_u32());
    }

    /// Whether a stream this side opened was left unprocessed by the peer's
    /// GOAWAY, and so ends with REFUSED_STREAM.
    pub fn is_refused_by_peer(&self, id: StreamId) -> (r: bool)
        ensures
            r == (self@.go_away_recv matches Some(l) && id.spec_id() > l),
    {
        match self.go_away_recv {
            Some(l) => id.as_u32() > l,
            None => false,
        }
    }

    /// Admits or refuses a received frame's head while a header block may
    /// be unfinished. A refused frame is a PROTOCOL_ERROR of the connection
    /// and changes nothing. An admitted HEADERS or PUSH_PROMISE without
    /// END_HEADERS makes its stream the one whose CONTINUATION is awaited;
    /// a CONTINUATION with END_HEADERS ends the wait.
    pub fn recv_frame_head(&mut self, kind: u8, flags: u8, id: StreamId) -> (r: Result<
        (),
        Reason,
    >)
        requires
            old(self)@.wf(),
            id.wf(),
        ensures
            final(self)@.wf(),
            r is Ok <==> frame_admitted(old(self)@.continuation_expected, kind, id.spec_id()),
            r is Err ==> r == Err::<(), Reason>(Reason::ProtocolError) && final(self)@ == old(
                self,
            )@,
            r is Ok ==> final(self)@ == (StreamsView {
                continuation_expected: if opens_header_block(kind, flags) {
                    Some(id.spec_id())
                } else if kind == CONTINUATION && flags & END_HEADERS == 0 {
                    old(self)@.continuation_expected
                } else {
                    None
                },
                ..old(self)@
            }),
    {
        match self.continuation_expected {
            Some(x) => {
                if kind != CONTINUATION || id.as_u32() != x {
                    return Err(Reason::ProtocolError);
                }
                if flags & END_HEADERS != 0 {
                    self.continuation_expected = None;
                }
                Ok(())
            },
            None => {
                if kind == CONTINUATION {
                    return Err(Reason::ProtocolError);
                }
                if (kind == HEADERS || kind == PUSH_PROMISE) && flags & END_HEADERS == 0 {
                    self.continuation_expected = Some(id.as_u32());
                }
                Ok(())
            },
        }
    }
}


/// Stream id monotonicity: the streams this side opens get strictly
/// increasing ids, each below the id the next one will get.
pub proof fn lemma_local_ids_increase(v: StreamsView)
    requires
        v.wf(),
    ensures
        forall|i: int, j: int|
            0 <= i < j < v.opened_local.len() ==> v.opened_local[i] < v.opened_local[j],
        forall|i: int| 0 <= i < v.opened_local.len() ==> v.opened_local[i] < v.next_local_id,
{
}

/// Stream id monotonicity for the peer: a stream it opens has an id above
/// every stream it opened before.
pub proof fn lemma_remote_ids_increase(v: StreamsView, id: nat)
    requires
        v.admits_remote(id),
    ensures
        id > v.highest_remote_id,
{
}

/// GOAWAY honoring: once this side has sent GOAWAY with last stream id
/// `l`, no stream above `l` that the peer opens is accepted.
pub proof fn lemma_go_away_honored(v: StreamsView, id: nat)
    requires
        v.go_away_sent matches Some(l) && id > l,
    ensures
        !v.admits_remote(id),
{
}

/// CONTINUATION atomicity: while a header block is unfinished, the only
/// frame admitted is a CONTINUATION of the same stream.
pub proof fn lemma_continuation_atomic(expected: Option<nat>, kind: u8, id: nat)
    requires
        expected is Some,
        frame_admitted(expected, kind, id),
    ensures
        kind == CONTINUATION,
        expected == Some(id),
{
}

} // verus!
