use vstd::prelude::*;
use vstd::slice::{slice_subrange, slice_to_vec};

verus! {

/// The largest stream id: stream ids are 31-bit.
pub const MAX_STREAM_ID: u32 = 0x7fff_ffff;

/// The largest value a frame's 24-bit length field can hold.
pub const MAX_FRAME_LENGTH: u32 = 0x00ff_ffff;

/// Identifies a stream; zero stands for the connection itself.
#[derive(Clone, Copy, Debug, PartialEq, Eq, Structural, Hash)]
pub struct StreamId {
    id: u32,
}

impl StreamId {
    /// The id as a mathematical integer.
    pub closed spec fn spec_id(self) -> nat {
        self.id as nat
    }

    /// Stream ids never use the reserved top bit.
    pub open spec fn wf(self) -> bool {
        self.spec_id() <= MAX_STREAM_ID
    }

    /// Two stream ids are equal exactly when their values are.
    pub broadcast proof fn lemma_id_eq(a: StreamId, b: StreamId)
        ensures
            #[trigger] a.spec_id() == #[trigger] b.spec_id() <==> a == b,
    {
    }

    /// The stream id with a given value, which the caller keeps to 31 bits.
    pub closed spec fn from_value(id: u32) -> StreamId {
        StreamId { id }
    }

    pub broadcast proof fn lemma_from_value(id: u32)
        ensures
            #[trigger] StreamId::from_value(id).spec_id() == id,
    {
    }

    /// The id of the connection itself.
    pub fn zero() -> (r: StreamId)
        ensures
            r.spec_id() == 0,
            r.wf(),
    {
        StreamId { id: 0 }
    }

    /// A stream id from its 31-bit value.
    pub fn new(id: u32) -> (r: StreamId)
        requires
            id <= MAX_STREAM_ID,
        ensures
            r.spec_id() == id,
            r.wf(),
    {
        StreamId { id }
    }

    pub fn as_u32(&self) -> (r: u32)
        ensures
            r == self.spec_id(),
    {
        self.id
    }

    pub fn is_zero(&self) -> (r: bool)
        ensures
            r == (self.spec_id() == 0),
    {
        self.id == 0
    }

    /// Odd ids are opened by clients.
    pub fn is_client_initiated(&self) -> (r: bool)
        ensures
            r == (self.spec_id() != 0 && self.spec_id() % 2 == 1),
    {
        self.id != 0 && self.id % 2 == 1
    }

    /// Even nonzero ids are opened by servers.
    pub fn is_server_initiated(&self) -> (r: bool)
        ensures
            r == (self.spec_id() != 0 && self.spec_id() % 2 == 0),
    {
        self.id != 0 && self.id % 2 == 0
    }
}


/// An error code carried by RST_STREAM and GOAWAY frames.
#[derive(Clone, Copy, Debug, PartialEq, Eq, Structural, Hash)]
pub enum Reason {
    NoError,
    ProtocolError,
    InternalError,
    FlowControlError,
    SettingsTimeout,
    StreamClosed,
    FrameSizeError,
    RefusedStream,
    Cancel,
    CompressionError,
    ConnectError,
    EnhanceYourCalm,
    InadequateSecurity,
    Http11Required,
    /// A code this library does not know; always above the known ones.
    Unknown(u32),
}

/// The 32-bit code of a reason on the wire.
pub open spec fn reason_code(r: Reason) -> u32 {
    match r {
        Reason::NoError => 0,
        Reason::ProtocolError => 1,
        Reason::InternalError => 2,
        Reason::FlowControlError => 3,
        Reason::SettingsTimeout => 4,
        Reason::StreamClosed => 5,
        Reason::FrameSizeError => 6,
        Reason::RefusedStream => 7,
        Reason::Cancel => 8,
        Reason::CompressionError => 9,
        Reason::ConnectError => 10,
        Reason::EnhanceYourCalm => 11,
        Reason::InadequateSecurity => 12,
        Reason::Http11Required => 13,
        Reason::Unknown(c) => c,
    }
}

/// The reason that a code on the wire stands for.
pub open spec fn reason_of_code(c: u32) -> Reason {
    if c == 0 { Reason::NoError }
    else if c == 1 { Reason::ProtocolError }
    else if c == 2 { Reason::InternalError }
    else if c == 3 { Reason::FlowControlError }
    else if c == 4 { Reason::SettingsTimeout }
    else if c == 5 { Reason::StreamClosed }
    else if c == 6 { Reason::FrameSizeError }
    else if c == 7 { Reason::RefusedStream }
    else if c == 8 { Reason::Cancel }
    else if c == 9 { Reason::CompressionError }
    else if c == 10 { Reason::ConnectError }
    else if c == 11 { Reason::EnhanceYourCalm }
    else if c == 12 { Reason::InadequateSecurity }
    else if c == 13 { Reason::Http11Required }
    else { Reason::Unknown(c) }
}

impl Reason {
    /// An unknown code never shadows a known one.
    pub open spec fn wf(self) -> bool {
        match self {
            Reason::Unknown(c) => c > 13,
            _ => true,
        }
    }

    pub fn from_code(code: u32) -> (r: Reason)
        ensures
            r == reason_of_code(code),
            r.wf(),
            reason_code(r) == code,
    {
        match code {
            0 => Reason::NoError,
            1 => Reason::ProtocolError,
            2 => Reason::InternalError,
            3 => Reason::FlowControlError,
            4 => Reason::SettingsTimeout,
            5 => Reason::StreamClosed,
            6 => Reason::FrameSizeError,
            7 => Reason::RefusedStream,
            8 => Reason::Cancel,
            9 => Reason::CompressionError,
            10 => Reason::ConnectError,
            11 => Reason::EnhanceYourCalm,
            12 => Reason::InadequateSecurity,
            13 => Reason::Http11Required,
            _ => Reason::Unknown(code),
        }
    }

    pub fn code(&self) -> (r: u32)
        ensures
            r == reason_code(*self),
    {
        match *self {
            Reason::NoError => 0,
            Reason::ProtocolError => 1,
            Reason::InternalError => 2,
            Reason::FlowControlError => 3,
            Reason::SettingsTimeout => 4,
            Reason::StreamClosed => 5,
            Reason::FrameSizeError => 6,
            Reason::RefusedStream => 7,
            Reason::Cancel => 8,
            Reason::CompressionError => 9,
            Reason::ConnectError => 10,
            Reason::EnhanceYourCalm => 11,
            Reason::InadequateSecurity => 12,
            Reason::Http11Required => 13,
            Reason::Unknown(c) => c,
        }
    }
}

/// The words that describe a reason.
pub open spec fn reason_description(r: Reason) -> Seq<char> {
    match r {
        Reason::NoError => "not a result of an error"@,
        Reason::ProtocolError => "unspecific protocol error detected"@,
        Reason::InternalError => "unexpected internal error encountered"@,
        Reason::FlowControlError => "flow-control protocol violated"@,
        Reason::SettingsTimeout => "settings ACK not received in timely manner"@,
        Reason::StreamClosed => "received frame when stream half-closed"@,
        Reason::FrameSizeError => "frame with invalid size"@,
        Reason::RefusedStream => "refused stream before processing any application logic"@,
        Reason::Cancel => "stream no longer needed"@,
        Reason::CompressionError => "unable to maintain the header compression context"@,
        Reason::ConnectError => "connection established in response to a CONNECT request was reset or abnormally closed"@,
        Reason::EnhanceYourCalm => "detected excessive load generating behavior"@,
        Reason::InadequateSecurity => "security properties do not meet minimum requirements"@,
        Reason::Http11Required => "endpoint requires HTTP/1.1"@,
        Reason::Unknown(_) => "unknown reason"@,
    }
}

impl Reason {
    /// The words that describe this reason.
    pub fn description(&self) -> (r: &'static str)
        ensures
            r@ == reason_description(*self),
    {
        match *self {
            Reason::NoError => "not a result of an error",
            Reason::ProtocolError => "unspecific protocol error detected",
            Reason::InternalError => "unexpected internal error encountered",
            Reason::FlowControlError => "flow-control protocol violated",
            Reason::SettingsTimeout => "settings ACK not received in timely manner",
            Reason::StreamClosed => "received frame when stream half-closed",
            Reason::FrameSizeError => "frame with invalid size",
            Reason::RefusedStream => "refused stream before processing any application logic",
            Reason::Cancel => "stream no longer needed",
            Reason::CompressionError => "unable to maintain the header compression context",
            Reason::ConnectError => "connection established in response to a CONNECT request was reset or abnormally closed",
            Reason::EnhanceYourCalm => "detected excessive load generating behavior",
            Reason::InadequateSecurity => "security properties do not meet minimum requirements",
            Reason::Http11Required => "endpoint requires HTTP/1.1",
            Reason::Unknown(_) => "unknown reason",
        }
    }
}

/// A well-formed reason goes to its code and back unchanged.
pub proof fn lemma_reason_code_round_trip(r: Reason)
    requires
        r.wf(),
    ensures
        reason_of_code(reason_code(r)) == r,
{
}

/// The four big-endian octets of a 32-bit value.
pub open spec fn be_u32_bytes(x: u32) -> Seq<u8> {
    seq![(x >> 24u32) as u8, (x >> 16u32) as u8, (x >> 8u32) as u8, x as u8]
}

/// The 32-bit value of four big-endian octets.
pub open spec fn be_u32_value(b0: u8, b1: u8, b2: u8, b3: u8) -> u32 {
    ((b0 as u32) << 24u32) | ((b1 as u32) << 16u32) | ((b2 as u32) << 8u32) | (b3 as u32)
}

proof fn lemma_be_u32_round_trip(x: u32)
    ensures
        be_u32_value((x >> 24u32) as u8, (x >> 16u32) as u8, (x >> 8u32) as u8, x as u8) == x,
{
    assert(((((x >> 24u32) as u8) as u32) << 24u32) | ((((x >> 16u32) as u8) as u32) << 16u32)
        | ((((x >> 8u32) as u8) as u32) << 8u32) | ((x as u8) as u32) == x) by (bit_vector);
}


pub const DATA: u8 = 0;
pub const HEADERS: u8 = 1;
pub const PRIORITY: u8 = 2;
pub const RST_STREAM: u8 = 3;
pub const SETTINGS: u8 = 4;
pub const PUSH_PROMISE: u8 = 5;
pub const PING: u8 = 6;
pub const GOAWAY: u8 = 7;
pub const WINDOW_UPDATE: u8 = 8;
pub const CONTINUATION: u8 = 9;

pub const ACK: u8 = 0x1;
pub const END_STREAM: u8 = 0x1;
pub const END_HEADERS: u8 = 0x4;
pub const PADDED: u8 = 0x8;
pub const PRIORITY_FLAG: u8 = 0x20;

/// The octets of a frame head: a 24-bit length, the type, the flags, and
/// the stream id with its reserved bit clear.
pub open spec fn head_bytes(length: u32, kind: u8, flags: u8, id: nat) -> Seq<u8> {
    be_u32_bytes(length).subrange(1, 4) + seq![kind, flags] + be_u32_bytes(id as u32)
}

/// The payload length written in the frame head at the start of `b`.
pub open spec fn head_length(b: Seq<u8>) -> u32 {
    be_u32_value(0, b[0], b[1], b[2])
}

/// The stream id written in the frame head at the start of `b`.
pub open spec fn head_stream_id(b: Seq<u8>) -> u32 {
    be_u32_value(b[5], b[6], b[7], b[8]) & 0x7fff_ffff
}

/// A control frame whose payload has a fixed layout.
#[derive(Clone, Copy, Debug, PartialEq, Eq, Structural)]
pub enum Frame {
    Reset { stream_id: StreamId, reason: Reason },
    WindowUpdate { stream_id: StreamId, increment: u32 },
    Ping { ack: bool, payload: u64 },
    GoAway { last_stream_id: StreamId, reason: Reason },
    Priority { stream_id: StreamId, dependency: StreamId, exclusive: bool, weight: u8 },
}

impl Frame {
    /// The values a peer can send: ids in range, a nonzero stream for a
    /// reset, a nonzero 31-bit window increment.
    pub open spec fn wf(self) -> bool {
        match self {
            Frame::Reset { stream_id, reason } => stream_id.wf() && stream_id.spec_id() != 0
                && reason.wf(),
            Frame::WindowUpdate { stream_id, increment } => stream_id.wf() && 0 < increment
                <= MAX_STREAM_ID,
            Frame::Ping { .. } => true,
            Frame::GoAway { last_stream_id, reason } => last_stream_id.wf() && reason.wf(),
            Frame::Priority { stream_id, dependency, .. } => stream_id.wf() && stream_id.spec_id()
                != 0 && dependency.wf() && dependency.spec_id() != stream_id.spec_id(),
        }
    }
}

/// The octets of a frame on the wire.
pub open spec fn frame_bytes(f: Frame) -> Seq<u8> {
    match f {
        Frame::Reset { stream_id, reason } => head_bytes(4, RST_STREAM, 0, stream_id.spec_id())
            + be_u32_bytes(reason_code(reason)),
        Frame::WindowUpdate { stream_id, increment } => head_bytes(
            4,
            WINDOW_UPDATE,
            0,
            stream_id.spec_id(),
        ) + be_u32_bytes(increment),
        Frame::Ping { ack, payload } => head_bytes(8, PING, if ack { ACK } else { 0 }, 0)
            + be_u32_bytes((payload >> 32u64) as u32) + be_u32_bytes(payload as u32),
        Frame::GoAway { last_stream_id, reason } => head_bytes(8, GOAWAY, 0, 0) + be_u32_bytes(
            last_stream_id.spec_id() as u32,
        ) + be_u32_bytes(reason_code(reason)),
        Frame::Priority { stream_id, dependency, exclusive, weight } => head_bytes(
            5,
            PRIORITY,
            0,
            stream_id.spec_id(),
        ) + be_u32_bytes(dependency_word(dependency.spec_id() as u32, exclusive)) + seq![weight],
    }
}

/// The first word of a PRIORITY payload: the dependency, with the top bit
/// set when it is exclusive.
pub open spec fn dependency_word(dependency: u32, exclusive: bool) -> u32 {
    if exclusive { dependency | 0x8000_0000 } else { dependency }
}

/// The 32-bit payload word at offset `i` after the frame head.
pub open spec fn payload_word(b: Seq<u8>, i: int) -> u32 {
    be_u32_value(b[9 + i], b[10 + i], b[11 + i], b[12 + i])
}

/// What a buffer holding exactly one control frame decodes to. The opaque
/// debug data that may follow a GOAWAY's error code is skipped.
pub open spec fn parse_frame(b: Seq<u8>) -> Result<Frame, Reason> {
    if b.len() < 9 || b.len() != 9 + head_length(b) {
        Err(Reason::FrameSizeError)
    } else {
        let kind = b[3];
        let id = head_stream_id(b);
        if kind == RST_STREAM {
            if head_length(b) != 4 {
                Err(Reason::FrameSizeError)
            } else if id == 0 {
                Err(Reason::ProtocolError)
            } else {
                Ok(
                    Frame::Reset {
                        stream_id: StreamId::from_value(id),
                        reason: reason_of_code(payload_word(b, 0)),
                    },
                )
            }
        } else if kind == WINDOW_UPDATE {
            if head_length(b) != 4 {
                Err(Reason::FrameSizeError)
            } else if payload_word(b, 0) & 0x7fff_ffff == 0 {
                Err(Reason::ProtocolError)
            } else {
                Ok(
                    Frame::WindowUpdate {
                        stream_id: StreamId::from_value(id),
                        increment: payload_word(b, 0) & 0x7fff_ffff,
                    },
                )
            }
        } else if kind == PING {
            if head_length(b) != 8 {
                Err(Reason::FrameSizeError)
            } else if id != 0 {
                Err(Reason::ProtocolError)
            } else {
                Ok(
                    Frame::Ping {
                        ack: b[4] & ACK == ACK,
                        payload: ((payload_word(b, 0) as u64) << 32u64) | (payload_word(
                            b,
                            4,
                        ) as u64),
                    },
                )
            }
        } else if kind == GOAWAY {
            if head_length(b) < 8 {
                Err(Reason::FrameSizeError)
            } else if id != 0 {
                Err(Reason::ProtocolError)
            } else {
                Ok(
                    Frame::GoAway {
                        last_stream_id: StreamId::from_value(payload_word(b, 0) & 0x7fff_ffff),
                        reason: reason_of_code(payload_word(b, 4)),
                    },
                )
            }
        } else if kind == PRIORITY {
            if head_length(b) != 5 {
                Err(Reason::FrameSizeError)
            } else if id == 0 || payload_word(b, 0) & 0x7fff_ffff == id {
                Err(Reason::ProtocolError)
            } else {
                Ok(
                    Frame::Priority {
                        stream_id: StreamId::from_value(id),
                        dependency: StreamId::from_value(payload_word(b, 0) & 0x7fff_ffff),
                        exclusive: payload_word(b, 0) & 0x8000_0000 != 0,
                        weight: b[13],
                    },
                )
            }
        } else {
            Err(Reason::ProtocolError)
        }
    }
}


proof fn lemma_mask_31(x: u32)
    ensures
        #[trigger] (x & 0x7fff_ffff) <= 0x7fff_ffff,
{
    assert(x & 0x7fff_ffff <= 0x7fff_ffff) by (bit_vector);
}

fn push_u32(out: &mut Vec<u8>, x: u32)
    ensures
        final(out)@ == old(out)@ + be_u32_bytes(x),
{
    out.push((x >> 24u32) as u8);
    out.push((x >> 16u32) as u8);
    out.push((x >> 8u32) as u8);
    out.push(x as u8);
    assert(final(out)@ =~= old(out)@ + be_u32_bytes(x));
}

pub(crate) fn read_u32(b: &[u8], i: usize) -> (r: u32)
    requires
        i + 4 <= b@.len(),
    ensures
        r == be_u32_value(b@[i as int], b@[i + 1], b@[i + 2], b@[i + 3]),
{
    ((b[i] as u32) << 24u32) | ((b[i + 1] as u32) << 16u32) | ((b[i + 2] as u32) << 8u32) | (b[i
        + 3] as u32)
}

fn push_head(out: &mut Vec<u8>, length: u32, kind: u8, flags: u8, id: u32)
    requires
        length <= MAX_FRAME_LENGTH,
    ensures
        final(out)@ == old(out)@ + head_bytes(length, kind, flags, id as nat),
{
    out.push((length >> 16u32) as u8);
    out.push((length >> 8u32) as u8);
    out.push(length as u8);
    out.push(kind);
    out.push(flags);
    push_u32(out, id);
    assert(final(out)@ =~= old(out)@ + head_bytes(length, kind, flags, id as nat));
}

impl Frame {
    /// Serializes the frame, head and payload.
    pub fn encode(&self) -> (r: Vec<u8>)
        requires
            self.wf(),
        ensures
            r@ == frame_bytes(*self),
    {
        let mut out: Vec<u8> = Vec::new();
        match *self {
            Frame::Reset { stream_id, reason } => {
                push_head(&mut out, 4, RST_STREAM, 0, stream_id.as_u32());
                push_u32(&mut out, reason.code());
            },
            Frame::WindowUpdate { stream_id, increment } => {
                push_head(&mut out, 4, WINDOW_UPDATE, 0, stream_id.as_u32());
                push_u32(&mut out, increment);
            },
            Frame::Ping { ack, payload } => {
                let flags: u8 = if ack { ACK } else { 0 };
                push_head(&mut out, 8, PING, flags, 0);
                push_u32(&mut out, (payload >> 32u64) as u32);
                push_u32(&mut out, payload as u32);
            },
            Frame::GoAway { last_stream_id, reason } => {
                push_head(&mut out, 8, GOAWAY, 0, 0);
                push_u32(&mut out, last_stream_id.as_u32());
                push_u32(&mut out, reason.code());
            },
            Frame::Priority { stream_id, dependency, exclusive, weight } => {
                push_head(&mut out, 5, PRIORITY, 0, stream_id.as_u32());
                let word = if exclusive {
                    dependency.as_u32() | 0x8000_0000
                } else {
                    dependency.as_u32()
                };
                push_u32(&mut out, word);
                out.push(weight);
            },
        }
        assert(out@ =~= frame_bytes(*self));
        out
    }

    /// Parses a buffer that holds exactly one control frame.
    pub fn decode(buf: &[u8]) -> (r: Result<Frame, Reason>)
        ensures
            r == parse_frame(buf@),
            r matches Ok(f) ==> f.wf(),
    {
        broadcast use StreamId::lemma_from_value, StreamId::lemma_id_eq;

        if buf.len() < 9 {
            return Err(Reason::FrameSizeError);
        }
        let length = read_u32(buf, 0) >> 8u32;
        assert(length == head_length(buf@)) by {
            let (b0, b1, b2, b3) = (buf@[0], buf@[1], buf@[2], buf@[3]);
            assert(be_u32_value(b0, b1, b2, b3) >> 8u32 == be_u32_value(0, b0, b1, b2))
                by (bit_vector);
        }
        if length as usize != buf.len() - 9 {
            return Err(Reason::FrameSizeError);
        }
        let kind = buf[3];
        let id = read_u32(buf, 5) & MAX_STREAM_ID;
        proof {
            lemma_mask_31(be_u32_value(buf@[5], buf@[6], buf@[7], buf@[8]));
        }
        if kind == RST_STREAM {
            if length != 4 {
                Err(Reason::FrameSizeError)
            } else if id == 0 {
                Err(Reason::ProtocolError)
            } else {
                let code = read_u32(buf, 9);
                Ok(Frame::Reset { stream_id: StreamId::new(id), reason: Reason::from_code(code) })
            }
        } else if kind == WINDOW_UPDATE {
            if length != 4 {
                Err(Reason::FrameSizeError)
            } else {
                let increment = read_u32(buf, 9) & MAX_STREAM_ID;
                proof {
                    lemma_mask_31(payload_word(buf@, 0));
                }
                if increment == 0 {
                    Err(Reason::ProtocolError)
                } else {
                    Ok(Frame::WindowUpdate { stream_id: StreamId::new(id), increment })
                }
            }
        } else if kind == PING {
            if length != 8 {
                Err(Reason::FrameSizeError)
            } else if id != 0 {
                Err(Reason::ProtocolError)
            } else {
                let hi = read_u32(buf, 9);
                let lo = read_u32(buf, 13);
                Ok(
                    Frame::Ping {
                        ack: buf[4] & ACK == ACK,
                        payload: ((hi as u64) << 32u64) | (lo as u64),
                    },
                )
            }
        } else if kind == GOAWAY {
            if length < 8 {
                Err(Reason::FrameSizeError)
            } else if id != 0 {
                Err(Reason::ProtocolError)
            } else {
                let last = read_u32(buf, 9) & MAX_STREAM_ID;
                proof {
                    lemma_mask_31(payload_word(buf@, 0));
                }
                let code = read_u32(buf, 13);
                Ok(
                    Frame::GoAway {
                        last_stream_id: StreamId::new(last),
                        reason: Reason::from_code(code),
                    },
                )
            }
        } else if kind == PRIORITY {
            if length != 5 {
                Err(Reason::FrameSizeError)
            } else {
                let word = read_u32(buf, 9);
                let dependency = word & MAX_STREAM_ID;
                proof {
                    lemma_mask_31(word);
                }
                if id == 0 || dependency == id {
                    Err(Reason::ProtocolError)
                } else {
                    Ok(
                        Frame::Priority {
                            stream_id: StreamId::new(id),
                            dependency: StreamId::new(dependency),
                            exclusive: word & 0x8000_0000 != 0,
                            weight: buf[13],
                        },
                    )
                }
            }
        } else {
            Err(Reason::ProtocolError)
        }
    }
}


proof fn lemma_head_round_trip(length: u32, kind: u8, flags: u8, id: nat)
    requires
        length <= MAX_FRAME_LENGTH,
        id <= MAX_STREAM_ID,
    ensures
        ({
            let b = head_bytes(length, kind, flags, id);
            &&& b.len() == 9
            &&& head_length(b) == length
            &&& b[3] == kind
            &&& b[4] == flags
            &&& head_stream_id(b) == id
        }),
{
    let x = id as u32;
    assert(be_u32_value(0, (length >> 16u32) as u8, (length >> 8u32) as u8, length as u8)
        == length) by (bit_vector)
        requires
            length <= 0x00ff_ffff,
    ;
    assert(be_u32_value((x >> 24u32) as u8, (x >> 16u32) as u8, (x >> 8u32) as u8, x as u8)
        & 0x7fff_ffff == x) by (bit_vector)
        requires
            x <= 0x7fff_ffff,
    ;
}

/// Framing round trip: every well-formed control frame decodes from its
/// own encoding to itself.
pub proof fn lemma_frame_round_trip(f: Frame)
    requires
        f.wf(),
    ensures
        parse_frame(frame_bytes(f)) == Ok::<Frame, Reason>(f),
{
    broadcast use StreamId::lemma_from_value, StreamId::lemma_id_eq;

    let b = frame_bytes(f);
    match f {
        Frame::Reset { stream_id, reason } => {
            lemma_head_round_trip(4, RST_STREAM, 0, stream_id.spec_id());
            lemma_be_u32_round_trip(reason_code(reason));
            assert(payload_word(b, 0) == reason_code(reason));
        },
        Frame::WindowUpdate { stream_id, increment } => {
            lemma_head_round_trip(4, WINDOW_UPDATE, 0, stream_id.spec_id());
            lemma_be_u32_round_trip(increment);
            assert(payload_word(b, 0) == increment);
            assert(increment & 0x7fff_ffff == increment) by (bit_vector)
                requires
                    increment <= 0x7fff_ffff,
            ;
        },
        Frame::Ping { ack, payload } => {
            let flags: u8 = if ack { ACK } else { 0 };
            lemma_head_round_trip(8, PING, flags, 0);
            let hi = (payload >> 32u64) as u32;
            let lo = payload as u32;
            lemma_be_u32_round_trip(hi);
            lemma_be_u32_round_trip(lo);
            assert(payload_word(b, 0) == hi);
            assert(payload_word(b, 4) == lo);
            assert(((((payload >> 32u64) as u32) as u64) << 32u64) | ((payload as u32) as u64)
                == payload) by (bit_vector);
            assert((flags & 1u8 == 1u8) == ack) by (bit_vector)
                requires
                    flags == (if ack { 1u8 } else { 0u8 }),
            ;
        },
        Frame::GoAway { last_stream_id, reason } => {
            lemma_head_round_trip(8, GOAWAY, 0, 0);
            let last = last_stream_id.spec_id() as u32;
            lemma_be_u32_round_trip(last);
            lemma_be_u32_round_trip(reason_code(reason));
            assert(payload_word(b, 0) == last);
            assert(payload_word(b, 4) == reason_code(reason));
            assert(last & 0x7fff_ffff == last) by (bit_vector)
                requires
                    last <= 0x7fff_ffff,
            ;
        },
        Frame::Priority { stream_id, dependency, exclusive, weight } => {
            lemma_head_round_trip(5, PRIORITY, 0, stream_id.spec_id());
            let dep = dependency.spec_id() as u32;
            let word = dependency_word(dep, exclusive);
            lemma_be_u32_round_trip(word);
            assert(payload_word(b, 0) == word);
            assert(b[13] == weight);
            assert(word & 0x7fff_ffff == dep && (word & 0x8000_0000 != 0) == exclusive)
                by (bit_vector)
                requires
                    dep <= 0x7fff_ffff,
                    word == (if exclusive { dep | 0x8000_0000 } else { dep }),
            ;
        },
    }
}


/// The 24 octets a client sends first: `PRI * HTTP/2.0\r\n\r\nSM\r\n\r\n`.
pub open spec fn preface_bytes() -> Seq<u8> {
    seq![
        0x50u8, 0x52, 0x49, 0x20, 0x2a, 0x20, 0x48, 0x54, 0x54, 0x50, 0x2f, 0x32, 0x2e, 0x30,
        0x0d, 0x0a, 0x0d, 0x0a, 0x53, 0x4d, 0x0d, 0x0a, 0x0d, 0x0a,
    ]
}

/// The connection preface.
pub fn preface() -> (r: Vec<u8>)
    ensures
        r@ == preface_bytes(),
{
    let r = vec![
        0x50u8, 0x52, 0x49, 0x20, 0x2a, 0x20, 0x48, 0x54, 0x54, 0x50, 0x2f, 0x32, 0x2e, 0x30,
        0x0d, 0x0a, 0x0d, 0x0a, 0x53, 0x4d, 0x0d, 0x0a, 0x0d, 0x0a,
    ];
    assert(r@ =~= preface_bytes());
    r
}

/// Whether `buf` is exactly the connection preface.
pub fn is_preface(buf: &[u8]) -> (r: bool)
    ensures
        r == (buf@ == preface_bytes()),
{
    let p = preface();
    if buf.len() != p.len() {
        return false;
    }
    let mut i: usize = 0;
    while i < buf.len()
        invariant
            buf@.len() == p@.len(),
            p@ == preface_bytes(),
            i <= buf@.len(),
            forall|j: int| 0 <= j < i ==> buf@[j] == p@[j],
        decreases buf@.len() - i,
    {
        if buf[i] != p[i] {
            return false;
        }
        i = i + 1;
    }
    assert(buf@ =~= p@);
    true
}

/// A DATA frame: its stream, its data, END_STREAM, and the length of the
/// padding that follows the data, if the frame is padded.
#[derive(Clone, Debug, PartialEq, Eq)]
pub struct Data {
    pub stream_id: StreamId,
    pub payload: Vec<u8>,
    pub end_stream: bool,
    pub pad_len: Option<u8>,
}

/// The flags of a DATA frame.
pub open spec fn data_flags(end_stream: bool, padded: bool) -> u8 {
    ((if end_stream { END_STREAM } else { 0 }) + (if padded { PADDED } else { 0 })) as u8
}

/// The payload length of a DATA frame: the data plus, when padded, the
/// pad length octet and the padding.
pub open spec fn data_length(d: Data) -> nat {
    match d.pad_len {
        Some(p) => (1 + d.payload@.len() + p) as nat,
        None => d.payload@.len(),
    }
}

impl Data {
    /// A DATA frame a peer may send: on a stream, not the connection, and
    /// no longer than `max_frame_size`, itself within 2^24-1.
    pub open spec fn wf(self, max_frame_size: u32) -> bool {
        &&& self.stream_id.wf()
        &&& self.stream_id.spec_id() != 0
        &&& max_frame_size <= MAX_FRAME_LENGTH
        &&& data_length(self) <= max_frame_size
    }
}

/// The octets of a DATA frame; padding octets are zero.
pub open spec fn data_bytes(d: Data) -> Seq<u8> {
    match d.pad_len {
        Some(p) => head_bytes(
            data_length(d) as u32,
            DATA,
            data_flags(d.end_stream, true),
            d.stream_id.spec_id(),
        ) + seq![p] + d.payload@ + Seq::new(p as nat, |i: int| 0u8),
        None => head_bytes(
            data_length(d) as u32,
            DATA,
            data_flags(d.end_stream, false),
            d.stream_id.spec_id(),
        ) + d.payload@,
    }
}

/// What a buffer holding exactly one DATA frame decodes to, as its stream
/// id, data, END_STREAM flag and pad length. A payload longer than
/// `max_frame_size` is a FRAME_SIZE_ERROR; DATA on stream zero, or padding
/// that leaves no room, is a PROTOCOL_ERROR.
pub open spec fn parse_data(b: Seq<u8>, max_frame_size: u32) -> Result<
    (nat, Seq<u8>, bool, Option<u8>),
    Reason,
> {
    if b.len() < 9 || b.len() != 9 + head_length(b) {
        Err(Reason::FrameSizeError)
    } else if b[3] != DATA {
        Err(Reason::ProtocolError)
    } else if head_length(b) > max_frame_size {
        Err(Reason::FrameSizeError)
    } else if head_stream_id(b) == 0 {
        Err(Reason::ProtocolError)
    } else {
        let end_stream = b[4] & END_STREAM == END_STREAM;
        if b[4] & PADDED == PADDED {
            if head_length(b) == 0 || b[9] >= head_length(b) {
                Err(Reason::ProtocolError)
            } else {
                Ok(
                    (
                        head_stream_id(b) as nat,
                        b.subrange(10, b.len() - b[9]),
                        end_stream,
                        Some(b[9]),
                    ),
                )
            }
        } else {
            Ok((head_stream_id(b) as nat, b.subrange(9, b.len() as int), end_stream, None))
        }
    }
}

impl Data {
    /// Serializes the frame; padding octets are zero.
    pub fn encode(&self, max_frame_size: u32) -> (r: Vec<u8>)
        requires
            self.wf(max_frame_size),
        ensures
            r@ == data_bytes(*self),
    {
        let mut out: Vec<u8> = Vec::new();
        let es: u8 = if self.end_stream { END_STREAM } else { 0 };
        match self.pad_len {
            Some(p) => {
                let length = 1 + self.payload.len() as u32 + p as u32;
                push_head(&mut out, length, DATA, es + PADDED, self.stream_id.as_u32());
                out.push(p);
            },
            None => {
                push_head(&mut out, self.payload.len() as u32, DATA, es, self.stream_id.as_u32());
            },
        }
        let ghost mid = out@;
        let mut i: usize = 0;
        while i < self.payload.len()
            invariant
                i <= self.payload@.len(),
                out@ == mid + self.payload@.subrange(0, i as int),
            decreases self.payload@.len() - i,
        {
            out.push(self.payload[i]);
            assert(self.payload@.subrange(0, i + 1) =~= self.payload@.subrange(0, i as int).push(
                self.payload@[i as int],
            ));
            i = i + 1;
        }
        assert(self.payload@.subrange(0, self.payload@.len() as int) =~= self.payload@);
        if let Some(p) = self.pad_len {
            let ghost mid2 = out@;
            let mut j: u8 = 0;
            while j < p
                invariant
                    j <= p,
                    out@ == mid2 + Seq::new(j as nat, |i: int| 0u8),
                decreases p - j,
            {
                out.push(0);
                assert(Seq::new((j + 1) as nat, |i: int| 0u8) =~= Seq::new(j as nat, |i: int| 0u8).push(0u8));
                j = j + 1;
            }
        }
        assert(out@ =~= data_bytes(*self));
        out
    }

    /// Parses a buffer that holds exactly one DATA frame.
    pub fn decode(buf: &[u8], max_frame_size: u32) -> (r: Result<Data, Reason>)
        ensures
            match r {
                Ok(d) => parse_data(buf@, max_frame_size) == Ok::<
                    (nat, Seq<u8>, bool, Option<u8>),
                    Reason,
                >((d.stream_id.spec_id(), d.payload@, d.end_stream, d.pad_len)) && d.stream_id.wf(),
                Err(e) => parse_data(buf@, max_frame_size) == Err::<
                    (nat, Seq<u8>, bool, Option<u8>),
                    Reason,
                >(e),
            },
    {
        if buf.len() < 9 {
            return Err(Reason::FrameSizeError);
        }
        let length = read_u32(buf, 0) >> 8u32;
        assert(length == head_length(buf@)) by {
            let (b0, b1, b2, b3) = (buf@[0], buf@[1], buf@[2], buf@[3]);
            assert(be_u32_value(b0, b1, b2, b3) >> 8u32 == be_u32_value(0, b0, b1, b2))
                by (bit_vector);
        }
        if length as usize != buf.len() - 9 {
            return Err(Reason::FrameSizeError);
        }
        if buf[3] != DATA {
            return Err(Reason::ProtocolError);
        }
        if length > max_frame_size {
            return Err(Reason::FrameSizeError);
        }
        let id = read_u32(buf, 5) & MAX_STREAM_ID;
        proof {
            lemma_mask_31(be_u32_value(buf@[5], buf@[6], buf@[7], buf@[8]));
        }
        if id == 0 {
            return Err(Reason::ProtocolError);
        }
        let flags = buf[4];
        let end_stream = flags & END_STREAM == END_STREAM;
        if flags & PADDED == PADDED {
            if length == 0 || buf[9] as u32 >= length {
                return Err(Reason::ProtocolError);
            }
            let p = buf[9];
            let payload = slice_to_vec(slice_subrange(buf, 10, buf.len() - p as usize));
            Ok(Data { stream_id: StreamId::new(id), payload, end_stream, pad_len: Some(p) })
        } else {
            let payload = slice_to_vec(slice_subrange(buf, 9, buf.len()));
            Ok(Data { stream_id: StreamId::new(id), payload, end_stream, pad_len: None })
        }
    }
}

proof fn lemma_data_flags(end_stream: bool, padded: bool)
    ensures
        (data_flags(end_stream, padded) & END_STREAM == END_STREAM) == end_stream,
        (data_flags(end_stream, padded) & PADDED == PADDED) == padded,
{
    let f = data_flags(end_stream, padded);
    assert(f == 0u8 || f == 1u8 || f == 8u8 || f == 9u8);
    assert((f & 1u8 == 1u8) == (f == 1u8 || f == 9u8)) by (bit_vector)
        requires
            f == 0u8 || f == 1u8 || f == 8u8 || f == 9u8,
    ;
    assert((f & 8u8 == 8u8) == (f == 8u8 || f == 9u8)) by (bit_vector)
        requires
            f == 0u8 || f == 1u8 || f == 8u8 || f == 9u8,
    ;
}

/// Framing round trip for DATA: every well-formed DATA frame decodes from
/// its own encoding to its stream, data, END_STREAM flag and pad length.
pub proof fn lemma_data_round_trip(d: Data, max_frame_size: u32)
    requires
        d.wf(max_frame_size),
    ensures
        parse_data(data_bytes(d), max_frame_size) == Ok::<(nat, Seq<u8>, bool, Option<u8>), Reason>(
            (d.stream_id.spec_id(), d.payload@, d.end_stream, d.pad_len),
        ),
{
    let b = data_bytes(d);
    let len = data_length(d) as u32;
    let padded = d.pad_len is Some;
    lemma_head_round_trip(len, DATA, data_flags(d.end_stream, padded), d.stream_id.spec_id());
    lemma_data_flags(d.end_stream, padded);
    match d.pad_len {
        Some(p) => {
            assert(b[9] == p);
            assert(b.subrange(10, b.len() - p) =~= d.payload@);
        },
        None => {
            assert(b.subrange(9, b.len() as int) =~= d.payload@);
        },
    }
}

/// The six octets of a SETTINGS entry.
pub open spec fn entry_bytes(e: (u16, u32)) -> Seq<u8> {
    seq![(e.0 >> 8u16) as u8, e.0 as u8] + be_u32_bytes(e.1)
}

/// The payload of a SETTINGS frame: its entries in order.
pub open spec fn entries_bytes(es: Seq<(u16, u32)>) -> Seq<u8>
    decreases es.len(),
{
    if es.len() == 0 {
        Seq::empty()
    } else {
        entries_bytes(es.drop_last()) + entry_bytes(es.last())
    }
}

/// The octets of a SETTINGS frame.
pub open spec fn settings_frame_bytes(ack: bool, es: Seq<(u16, u32)>) -> Seq<u8> {
    head_bytes((6 * es.len()) as u32, SETTINGS, if ack { ACK } else { 0 }, 0) + entries_bytes(es)
}

/// The entry whose six octets start at `i` in `b`.
pub open spec fn entry_at(b: Seq<u8>, i: int) -> (u16, u32) {
    (
        ((b[i] as u16) << 8u16) | (b[i + 1] as u16),
        be_u32_value(b[i + 2], b[i + 3], b[i + 4], b[i + 5]),
    )
}

/// What a buffer holding exactly one SETTINGS frame decodes to: the ACK
/// flag and the entries. A frame on a stream is a PROTOCOL_ERROR; an ACK
/// with a payload, or a payload that is not whole entries, is a
/// FRAME_SIZE_ERROR.
pub open spec fn parse_settings_frame(b: Seq<u8>) -> Result<(bool, Seq<(u16, u32)>), Reason> {
    if b.len() < 9 || b.len() != 9 + head_length(b) {
        Err(Reason::FrameSizeError)
    } else if b[3] != SETTINGS || head_stream_id(b) != 0 {
        Err(Reason::ProtocolError)
    } else if b[4] & ACK == ACK && head_length(b) != 0 {
        Err(Reason::FrameSizeError)
    } else if head_length(b) % 6 != 0 {
        Err(Reason::FrameSizeError)
    } else {
        Ok(
            (
                b[4] & ACK == ACK,
                Seq::new((head_length(b) / 6) as nat, |i: int| entry_at(b, 9 + 6 * i)),
            ),
        )
    }
}

/// Serializes a SETTINGS frame; an acknowledgement carries no entries.
pub fn encode_settings(ack: bool, entries: &Vec<(u16, u32)>) -> (r: Vec<u8>)
    requires
        6 * entries@.len() <= MAX_FRAME_LENGTH,
        ack ==> entries@.len() == 0,
    ensures
        r@ == settings_frame_bytes(ack, entries@),
{
    let mut out: Vec<u8> = Vec::new();
    let flags: u8 = if ack { ACK } else { 0 };
    push_head(&mut out, 6 * entries.len() as u32, SETTINGS, flags, 0);
    let ghost head = out@;
    let mut i: usize = 0;
    while i < entries.len()
        invariant
            i <= entries@.len(),
            out@ == head + entries_bytes(entries@.subrange(0, i as int)),
        decreases entries@.len() - i,
    {
        let (id, value) = entries[i];
        out.push((id >> 8u16) as u8);
        out.push(id as u8);
        let ghost before = out@;
        push_u32(&mut out, value);
        proof {
            let sub = entries@.subrange(0, i + 1);
            assert(sub.drop_last() =~= entries@.subrange(0, i as int));
            assert(sub.last() == (id, value));
        }
        assert(out@ =~= head + entries_bytes(entries@.subrange(0, i + 1)));
        i = i + 1;
    }
    assert(entries@.subrange(0, entries@.len() as int) =~= entries@);
    out
}

/// Parses a buffer that holds exactly one SETTINGS frame.
pub fn decode_settings(buf: &[u8]) -> (r: Result<(bool, Vec<(u16, u32)>), Reason>)
    ensures
        match r {
            Ok((ack, es)) => parse_settings_frame(buf@) == Ok::<(bool, Seq<(u16, u32)>), Reason>(
                (ack, es@),
            ),
            Err(e) => parse_settings_frame(buf@) == Err::<(bool, Seq<(u16, u32)>), Reason>(e),
        },
{
    if buf.len() < 9 {
        return Err(Reason::FrameSizeError);
    }
    let length = read_u32(buf, 0) >> 8u32;
    assert(length == head_length(buf@)) by {
        let (b0, b1, b2, b3) = (buf@[0], buf@[1], buf@[2], buf@[3]);
        assert(be_u32_value(b0, b1, b2, b3) >> 8u32 == be_u32_value(0, b0, b1, b2))
            by (bit_vector);
    }
    if length as usize != buf.len() - 9 {
        return Err(Reason::FrameSizeError);
    }
    let id = read_u32(buf, 5) & MAX_STREAM_ID;
    if buf[3] != SETTINGS || id != 0 {
        return Err(Reason::ProtocolError);
    }
    let ack = buf[4] & ACK == ACK;
    if ack && length != 0 {
        return Err(Reason::FrameSizeError);
    }
    if length % 6 != 0 {
        return Err(Reason::FrameSizeError);
    }
    let n = (length / 6) as usize;
    let mut entries: Vec<(u16, u32)> = Vec::new();
    let mut i: usize = 0;
    while i < n
        invariant
            n == head_length(buf@) / 6,
            buf@.len() == 9 + head_length(buf@),
            i <= n,
            entries@ =~= Seq::new(i as nat, |k: int| entry_at(buf@, 9 + 6 * k)),
        decreases n - i,
    {
        let at = 9 + 6 * i;
        let eid: u16 = ((buf[at] as u16) << 8u16) | (buf[at + 1] as u16);
        let value = read_u32(buf, at + 2);
        entries.push((eid, value));
        i = i + 1;
    }
    Ok((ack, entries))
}

proof fn lemma_entry_round_trip(e: (u16, u32), b: Seq<u8>, i: int)
    requires
        0 <= i,
        i + 6 <= b.len(),
        b.subrange(i, i + 6) == entry_bytes(e),
    ensures
        entry_at(b, i) == e,
{
    let eb = entry_bytes(e);
    assert(b[i] == eb[0] && b[i + 1] == eb[1] && b[i + 2] == eb[2] && b[i + 3] == eb[3]
        && b[i + 4] == eb[4] && b[i + 5] == eb[5]) by {
        assert(b.subrange(i, i + 6)[0] == b[i]);
        assert(b.subrange(i, i + 6)[1] == b[i + 1]);
        assert(b.subrange(i, i + 6)[2] == b[i + 2]);
        assert(b.subrange(i, i + 6)[3] == b[i + 3]);
        assert(b.subrange(i, i + 6)[4] == b[i + 4]);
        assert(b.subrange(i, i + 6)[5] == b[i + 5]);
    }
    let id = e.0;
    assert((((((id >> 8u16) as u8) as u16) << 8u16) | ((id as u8) as u16)) == id) by (bit_vector);
    lemma_be_u32_round_trip(e.1);
}

proof fn lemma_entries_layout(es: Seq<(u16, u32)>)
    ensures
        entries_bytes(es).len() == 6 * es.len(),
        forall|k: int|
            0 <= k < es.len() ==> entries_bytes(es).subrange(6 * k, 6 * k + 6) == entry_bytes(
                #[trigger] es[k],
            ),
    decreases es.len(),
{
    if es.len() > 0 {
        let pre = es.drop_last();
        lemma_entries_layout(pre);
        let eb = entries_bytes(es);
        let pb = entries_bytes(pre);
        assert(eb == pb + entry_bytes(es.last()));
        assert forall|k: int| 0 <= k < es.len() implies eb.subrange(6 * k, 6 * k + 6)
            == entry_bytes(#[trigger] es[k]) by {
            if k < es.len() - 1 {
                assert(pre[k] == es[k]);
                assert(6 * k + 6 <= pb.len()) by (nonlinear_arith)
                    requires
                        k < es.len() - 1,
                        pb.len() == 6 * (es.len() - 1),
                ;
                assert(eb.subrange(6 * k, 6 * k + 6) =~= pb.subrange(6 * k, 6 * k + 6));
            } else {
                assert(6 * k == pb.len());
                assert(eb.subrange(6 * k, 6 * k + 6) =~= entry_bytes(es.last()));
            }
        }
    }
}

/// Framing round trip for SETTINGS: a SETTINGS frame decodes from its own
/// encoding to the same ACK flag and the same entries, in order.
pub proof fn lemma_settings_round_trip(ack: bool, es: Seq<(u16, u32)>)
    requires
        6 * es.len() <= MAX_FRAME_LENGTH,
        ack ==> es.len() == 0,
    ensures
        parse_settings_frame(settings_frame_bytes(ack, es)) == Ok::<
            (bool, Seq<(u16, u32)>),
            Reason,
        >((ack, es)),
{
    let b = settings_frame_bytes(ack, es);
    let flags: u8 = if ack { ACK } else { 0 };
    lemma_head_round_trip((6 * es.len()) as u32, SETTINGS, flags, 0);
    assert((flags & 1u8 == 1u8) == ack) by (bit_vector)
        requires
            flags == (if ack { 1u8 } else { 0u8 }),
    ;
    lemma_entries_layout(es);
    let eb = entries_bytes(es);
    assert(b == head_bytes((6 * es.len()) as u32, SETTINGS, flags, 0) + eb);
    let parsed = Seq::new(es.len(), |i: int| entry_at(b, 9 + 6 * i));
    assert forall|k: int| 0 <= k < es.len() implies parsed[k] == es[k] by {
        assert(6 * k + 6 <= eb.len()) by (nonlinear_arith)
            requires
                0 <= k < es.len(),
                eb.len() == 6 * es.len(),
        ;
        assert(b.subrange(9 + 6 * k, 9 + 6 * k + 6) =~= eb.subrange(6 * k, 6 * k + 6));
        assert(eb.subrange(6 * k, 6 * k + 6) == entry_bytes(es[k]));
        lemma_entry_round_trip(es[k], b, 9 + 6 * k);
    }
    assert(parsed =~= es);
    assert((6 * es.len()) / 6 == es.len());
}

/// The priority a HEADERS frame may carry.
#[derive(Clone, Copy, Debug, PartialEq, Eq, Structural)]
pub struct StreamDependency {
    pub dependency: StreamId,
    pub exclusive: bool,
    pub weight: u8,
}

/// A HEADERS frame: its stream, the header block fragment it carries, its
/// flags, its padding and its priority.
#[derive(Clone, Debug, PartialEq, Eq)]
pub struct HeadersFrame {
    pub stream_id: StreamId,
    pub fragment: Vec<u8>,
    pub end_stream: bool,
    pub end_headers: bool,
    pub pad_len: Option<u8>,
    pub priority: Option<StreamDependency>,
}

/// The flags of a HEADERS frame.
pub open spec fn headers_flags(end_stream: bool, end_headers: bool, padded: bool, prio: bool) -> u8 {
    ((if end_stream { END_STREAM } else { 0 }) + (if end_headers { END_HEADERS } else { 0 }) + (
    if padded { PADDED } else { 0 }) + (if prio { PRIORITY_FLAG } else { 0 })) as u8
}

/// The octets before the fragment: the pad length and the priority.
pub open spec fn headers_prefix(h: HeadersFrame) -> Seq<u8> {
    (match h.pad_len {
        Some(p) => seq![p],
        None => Seq::empty(),
    }) + (match h.priority {
        Some(d) => be_u32_bytes(dependency_word(d.dependency.spec_id() as u32, d.exclusive))
            + seq![d.weight],
        None => Seq::empty(),
    })
}

pub open spec fn headers_pad(h: HeadersFrame) -> nat {
    match h.pad_len {
        Some(p) => p as nat,
        None => 0,
    }
}

pub open spec fn headers_length(h: HeadersFrame) -> nat {
    headers_prefix(h).len() + h.fragment@.len() + headers_pad(h)
}

impl HeadersFrame {
    /// A HEADERS frame a peer may send: on a stream, and no longer than
    /// `max_frame_size`, itself within 2^24-1.
    pub open spec fn wf(self, max_frame_size: u32) -> bool {
        &&& self.stream_id.wf()
        &&& self.stream_id.spec_id() != 0
        &&& self.priority matches Some(d) ==> d.dependency.wf()
        &&& max_frame_size <= MAX_FRAME_LENGTH
        &&& headers_length(self) <= max_frame_size
    }
}

/// The octets of a HEADERS frame; padding octets are zero.
pub open spec fn headers_bytes(h: HeadersFrame) -> Seq<u8> {
    head_bytes(
        headers_length(h) as u32,
        HEADERS,
        headers_flags(h.end_stream, h.end_headers, h.pad_len is Some, h.priority is Some),
        h.stream_id.spec_id(),
    ) + headers_prefix(h) + h.fragment@ + Seq::new(headers_pad(h), |i: int| 0u8)
}

/// What a buffer holding exactly one HEADERS frame decodes to: stream id,
/// fragment, END_STREAM, END_HEADERS, pad length, and priority as
/// (dependency, exclusive, weight). A payload longer than
/// `max_frame_size` is a FRAME_SIZE_ERROR; a frame on stream zero, or
/// padding and priority that leave no room, is a PROTOCOL_ERROR.
pub open spec fn parse_headers(b: Seq<u8>, max_frame_size: u32) -> Result<
    (nat, Seq<u8>, bool, bool, Option<u8>, Option<(nat, bool, u8)>),
    Reason,
> {
    if b.len() < 9 || b.len() != 9 + head_length(b) {
        Err(Reason::FrameSizeError)
    } else if b[3] != HEADERS {
        Err(Reason::ProtocolError)
    } else if head_length(b) > max_frame_size {
        Err(Reason::FrameSizeError)
    } else if head_stream_id(b) == 0 {
        Err(Reason::ProtocolError)
    } else {
        let f = b[4];
        let padded = f & PADDED == PADDED;
        let prio = f & PRIORITY_FLAG == PRIORITY_FLAG;
        let pad_field: int = if padded { 1 } else { 0 };
        let prio_field: int = if prio { 5 } else { 0 };
        if head_length(b) < pad_field + prio_field {
            Err(Reason::ProtocolError)
        } else {
            let pad: int = if padded { b[9] as int } else { 0 };
            let off = 9 + pad_field;
            if pad_field + prio_field + pad > head_length(b) {
                Err(Reason::ProtocolError)
            } else {
                Ok(
                    (
                        head_stream_id(b) as nat,
                        b.subrange(off + prio_field, b.len() - pad),
                        f & END_STREAM == END_STREAM,
                        f & END_HEADERS == END_HEADERS,
                        if padded { Some(b[9]) } else { None },
                        if prio {
                            Some(
                                (
                                    (payload_word(b, pad_field) & 0x7fff_ffff) as nat,
                                    payload_word(b, pad_field) & 0x8000_0000 != 0,
                                    b[off + 4],
                                ),
                            )
                        } else {
                            None
                        },
                    ),
                )
            }
        }
    }
}

fn push_all(out: &mut Vec<u8>, bytes: &Vec<u8>)
    ensures
        final(out)@ == old(out)@ + bytes@,
{
    let ghost start = out@;
    let mut i: usize = 0;
    while i < bytes.len()
        invariant
            i <= bytes@.len(),
            out@ == start + bytes@.subrange(0, i as int),
        decreases bytes@.len() - i,
    {
        out.push(bytes[i]);
        assert(bytes@.subrange(0, i + 1) =~= bytes@.subrange(0, i as int).push(bytes@[i as int]));
        i = i + 1;
    }
    assert(bytes@.subrange(0, bytes@.len() as int) =~= bytes@);
}

fn push_zeros(out: &mut Vec<u8>, n: u8)
    ensures
        final(out)@ == old(out)@ + Seq::new(n as nat, |i: int| 0u8),
{
    let ghost start = out@;
    let mut j: u8 = 0;
    while j < n
        invariant
            j <= n,
            out@ == start + Seq::new(j as nat, |i: int| 0u8),
        decreases n - j,
    {
        out.push(0);
        assert(Seq::new((j + 1) as nat, |i: int| 0u8) =~= Seq::new(j as nat, |i: int| 0u8).push(0u8));
        j = j + 1;
    }
}

impl HeadersFrame {
    /// Serializes the frame; padding octets are zero.
    pub fn encode(&self, max_frame_size: u32) -> (r: Vec<u8>)
        requires
            self.wf(max_frame_size),
        ensures
            r@ == headers_bytes(*self),
    {
        let mut flags: u8 = 0;
        let mut length: u32 = self.fragment.len() as u32;
        if self.end_stream {
            flags = flags + END_STREAM;
        }
        if self.end_headers {
            flags = flags + END_HEADERS;
        }
        if let Some(p) = self.pad_len {
            flags = flags + PADDED;
            length = length + 1 + p as u32;
        }
        if self.priority.is_some() {
            flags = flags + PRIORITY_FLAG;
            length = length + 5;
        }
        let mut out: Vec<u8> = Vec::new();
        push_head(&mut out, length, HEADERS, flags, self.stream_id.as_u32());
        let ghost head = out@;
        if let Some(p) = self.pad_len {
            out.push(p);
        }
        if let Some(d) = self.priority {
            let word = if d.exclusive {
                d.dependency.as_u32() | 0x8000_0000
            } else {
                d.dependency.as_u32()
            };
            push_u32(&mut out, word);
            out.push(d.weight);
        }
        assert(out@ =~= head + headers_prefix(*self));
        push_all(&mut out, &self.fragment);
        if let Some(p) = self.pad_len {
            push_zeros(&mut out, p);
        } else {
            assert(Seq::new(0nat, |i: int| 0u8) =~= Seq::<u8>::empty());
        }
        assert(out@ =~= headers_bytes(*self));
        out
    }
}

/// A decoded HEADERS frame as the values `parse_headers` gives.
pub open spec fn headers_view(h: HeadersFrame) -> (
    nat,
    Seq<u8>,
    bool,
    bool,
    Option<u8>,
    Option<(nat, bool, u8)>,
) {
    (
        h.stream_id.spec_id(),
        h.fragment@,
        h.end_stream,
        h.end_headers,
        h.pad_len,
        match h.priority {
            Some(d) => Some((d.dependency.spec_id(), d.exclusive, d.weight)),
            None => None,
        },
    )
}

impl HeadersFrame {
    /// Parses a buffer that holds exactly one HEADERS frame.
    pub fn decode(buf: &[u8], max_frame_size: u32) -> (r: Result<HeadersFrame, Reason>)
        ensures
            match r {
                Ok(h) => parse_headers(buf@, max_frame_size) == Ok::<
                    (nat, Seq<u8>, bool, bool, Option<u8>, Option<(nat, bool, u8)>),
                    Reason,
                >(headers_view(h)),
                Err(e) => parse_headers(buf@, max_frame_size) == Err::<
                    (nat, Seq<u8>, bool, bool, Option<u8>, Option<(nat, bool, u8)>),
                    Reason,
                >(e),
            },
    {
        if buf.len() < 9 {
            return Err(Reason::FrameSizeError);
        }
        let length = read_u32(buf, 0) >> 8u32;
        assert(length == head_length(buf@)) by {
            let (b0, b1, b2, b3) = (buf@[0], buf@[1], buf@[2], buf@[3]);
            assert(be_u32_value(b0, b1, b2, b3) >> 8u32 == be_u32_value(0, b0, b1, b2))
                by (bit_vector);
        }
        if length as usize != buf.len() - 9 {
            return Err(Reason::FrameSizeError);
        }
        if buf[3] != HEADERS {
            return Err(Reason::ProtocolError);
        }
        if length > max_frame_size {
            return Err(Reason::FrameSizeError);
        }
        let id = read_u32(buf, 5) & MAX_STREAM_ID;
        proof {
            lemma_mask_31(be_u32_value(buf@[5], buf@[6], buf@[7], buf@[8]));
        }
        if id == 0 {
            return Err(Reason::ProtocolError);
        }
        let f = buf[4];
        let padded = f & PADDED == PADDED;
        let prio = f & PRIORITY_FLAG == PRIORITY_FLAG;
        let pad_field: usize = if padded { 1 } else { 0 };
        let prio_field: usize = if prio { 5 } else { 0 };
        if (length as usize) < pad_field + prio_field {
            return Err(Reason::ProtocolError);
        }
        let pad: usize = if padded { buf[9] as usize } else { 0 };
        let off = 9 + pad_field;
        if pad_field + prio_field + pad > length as usize {
            return Err(Reason::ProtocolError);
        }
        let fragment = slice_to_vec(slice_subrange(buf, off + prio_field, buf.len() - pad));
        let priority = if prio {
            let word = read_u32(buf, off);
            let dependency = word & MAX_STREAM_ID;
            proof {
                lemma_mask_31(word);
            }
            Some(
                StreamDependency {
                    dependency: StreamId::new(dependency),
                    exclusive: word & 0x8000_0000 != 0,
                    weight: buf[off + 4],
                },
            )
        } else {
            None
        };
        let pad_len = if padded { Some(buf[9]) } else { None };
        let h = HeadersFrame {
            stream_id: StreamId::new(id),
            fragment,
            end_stream: f & END_STREAM == END_STREAM,
            end_headers: f & END_HEADERS == END_HEADERS,
            pad_len,
            priority,
        };
        Ok(h)
    }
}

proof fn lemma_headers_flags(es: bool, eh: bool, pd: bool, pr: bool)
    ensures
        ({
            let f = headers_flags(es, eh, pd, pr);
            &&& (f & END_STREAM == END_STREAM) == es
            &&& (f & END_HEADERS == END_HEADERS) == eh
            &&& (f & PADDED == PADDED) == pd
            &&& (f & PRIORITY_FLAG == PRIORITY_FLAG) == pr
        }),
{
    let a: u8 = if es { 1 } else { 0 };
    let b: u8 = if eh { 4 } else { 0 };
    let c: u8 = if pd { 8 } else { 0 };
    let d: u8 = if pr { 0x20 } else { 0 };
    let f = headers_flags(es, eh, pd, pr);
    assert(f == a + b + c + d);
    assert(((f & 1u8) == 1u8) == (a == 1u8) && ((f & 4u8) == 4u8) == (b == 4u8) && ((f & 8u8)
        == 8u8) == (c == 8u8) && ((f & 0x20u8) == 0x20u8) == (d == 0x20u8)) by (bit_vector)
        requires
            a == 0u8 || a == 1u8,
            b == 0u8 || b == 4u8,
            c == 0u8 || c == 8u8,
            d == 0u8 || d == 0x20u8,
            f == a + b + c + d,
    ;
}

/// Framing round trip for HEADERS: a well-formed HEADERS frame decodes from
/// its own encoding to its stream, fragment, flags, pad length and
/// priority.
pub proof fn lemma_headers_round_trip(h: HeadersFrame, max_frame_size: u32)
    requires
        h.wf(max_frame_size),
    ensures
        parse_headers(headers_bytes(h), max_frame_size) == Ok::<
            (nat, Seq<u8>, bool, bool, Option<u8>, Option<(nat, bool, u8)>),
            Reason,
        >(headers_view(h)),
{
    let b = headers_bytes(h);
    let len = headers_length(h) as u32;
    let pd = h.pad_len is Some;
    let pr = h.priority is Some;
    let flags = headers_flags(h.end_stream, h.end_headers, pd, pr);
    lemma_head_round_trip(len, HEADERS, flags, h.stream_id.spec_id());
    lemma_headers_flags(h.end_stream, h.end_headers, pd, pr);
    let pre = headers_prefix(h);
    let pad_field: int = if pd { 1 } else { 0 };
    let prio_field: int = if pr { 5 } else { 0 };
    assert(pre.len() == pad_field + prio_field);
    if let Some(p) = h.pad_len {
        assert(b[9] == p);
    }
    if let Some(d) = h.priority {
        let dep = d.dependency.spec_id() as u32;
        let ex = d.exclusive;
        let word = dependency_word(dep, ex);
        lemma_be_u32_round_trip(word);
        assert(payload_word(b, pad_field) == word);
        assert(b[9 + pad_field + 4] == d.weight);
        assert(word & 0x7fff_ffff == dep && (word & 0x8000_0000 != 0) == ex)
            by (bit_vector)
            requires
                dep <= 0x7fff_ffff,
                word == (if ex { dep | 0x8000_0000 } else { dep }),
        ;
    }
    let pad: int = headers_pad(h) as int;
    assert(b.subrange(9 + pad_field + prio_field, b.len() - pad) =~= h.fragment@);
}

/// A CONTINUATION frame: the next fragment of a header block.
#[derive(Clone, Debug, PartialEq, Eq)]
pub struct ContinuationFrame {
    pub stream_id: StreamId,
    pub fragment: Vec<u8>,
    pub end_headers: bool,
}

impl ContinuationFrame {
    pub open spec fn wf(self, max_frame_size: u32) -> bool {
        &&& self.stream_id.wf()
        &&& self.stream_id.spec_id() != 0
        &&& max_frame_size <= MAX_FRAME_LENGTH
        &&& self.fragment@.len() <= max_frame_size
    }
}

/// The octets of a CONTINUATION frame.
pub open spec fn continuation_bytes(c: ContinuationFrame) -> Seq<u8> {
    head_bytes(
        c.fragment@.len() as u32,
        CONTINUATION,
        if c.end_headers { END_HEADERS } else { 0 },
        c.stream_id.spec_id(),
    ) + c.fragment@
}

/// What a buffer holding exactly one CONTINUATION frame decodes to: stream
/// id, fragment and END_HEADERS.
pub open spec fn parse_continuation(b: Seq<u8>, max_frame_size: u32) -> Result<
    (nat, Seq<u8>, bool),
    Reason,
> {
    if b.len() < 9 || b.len() != 9 + head_length(b) {
        Err(Reason::FrameSizeError)
    } else if b[3] != CONTINUATION {
        Err(Reason::ProtocolError)
    } else if head_length(b) > max_frame_size {
        Err(Reason::FrameSizeError)
    } else if head_stream_id(b) == 0 {
        Err(Reason::ProtocolError)
    } else {
        Ok(
            (
                head_stream_id(b) as nat,
                b.subrange(9, b.len() as int),
                b[4] & END_HEADERS == END_HEADERS,
            ),
        )
    }
}

impl ContinuationFrame {
    pub fn encode(&self, max_frame_size: u32) -> (r: Vec<u8>)
        requires
            self.wf(max_frame_size),
        ensures
            r@ == continuation_bytes(*self),
    {
        let mut out: Vec<u8> = Vec::new();
        let flags: u8 = if self.end_headers { END_HEADERS } else { 0 };
        push_head(&mut out, self.fragment.len() as u32, CONTINUATION, flags, self.stream_id.as_u32());
        push_all(&mut out, &self.fragment);
        out
    }

    /// Parses a buffer that holds exactly one CONTINUATION frame.
    pub fn decode(buf: &[u8], max_frame_size: u32) -> (r: Result<ContinuationFrame, Reason>)
        ensures
            match r {
                Ok(c) => parse_continuation(buf@, max_frame_size) == Ok::<
                    (nat, Seq<u8>, bool),
                    Reason,
                >((c.stream_id.spec_id(), c.fragment@, c.end_headers)),
                Err(e) => parse_continuation(buf@, max_frame_size) == Err::<
                    (nat, Seq<u8>, bool),
                    Reason,
                >(e),
            },
    {
        if buf.len() < 9 {
            return Err(Reason::FrameSizeError);
        }
        let length = read_u32(buf, 0) >> 8u32;
        assert(length == head_length(buf@)) by {
            let (b0, b1, b2, b3) = (buf@[0], buf@[1], buf@[2], buf@[3]);
            assert(be_u32_value(b0, b1, b2, b3) >> 8u32 == be_u32_value(0, b0, b1, b2))
                by (bit_vector);
        }
        if length as usize != buf.len() - 9 {
            return Err(Reason::FrameSizeError);
        }
        if buf[3] != CONTINUATION {
            return Err(Reason::ProtocolError);
        }
        if length > max_frame_size {
            return Err(Reason::FrameSizeError);
        }
        let id = read_u32(buf, 5) & MAX_STREAM_ID;
        proof {
            lemma_mask_31(be_u32_value(buf@[5], buf@[6], buf@[7], buf@[8]));
        }
        if id == 0 {
            return Err(Reason::ProtocolError);
        }
        let fragment = slice_to_vec(slice_subrange(buf, 9, buf.len()));
        Ok(
            ContinuationFrame {
                stream_id: StreamId::new(id),
                fragment,
                end_headers: buf[4] & END_HEADERS == END_HEADERS,
            },
        )
    }
}

/// Framing round trip for CONTINUATION: a well-formed CONTINUATION frame
/// decodes from its own encoding to its stream, fragment and END_HEADERS.
pub proof fn lemma_continuation_round_trip(c: ContinuationFrame, max_frame_size: u32)
    requires
        c.wf(max_frame_size),
    ensures
        parse_continuation(continuation_bytes(c), max_frame_size) == Ok::<
            (nat, Seq<u8>, bool),
            Reason,
        >((c.stream_id.spec_id(), c.fragment@, c.end_headers)),
{
    let b = continuation_bytes(c);
    let flags: u8 = if c.end_headers { END_HEADERS } else { 0 };
    lemma_head_round_trip(c.fragment@.len() as u32, CONTINUATION, flags, c.stream_id.spec_id());
    let eh = c.end_headers;
    assert((flags & 4u8 == 4u8) == eh) by (bit_vector)
        requires
            flags == (if eh { 4u8 } else { 0u8 }),
    ;
    assert(b.subrange(9, b.len() as int) =~= c.fragment@);
}

/// What a client sends first: the preface, then its SETTINGS frame.
pub fn client_preface(settings: &Vec<(u16, u32)>) -> (r: Vec<u8>)
    requires
        6 * settings@.len() <= MAX_FRAME_LENGTH,
    ensures
        r@ == preface_bytes() + settings_frame_bytes(false, settings@),
{
    let mut out = preface();
    let frame = encode_settings(false, settings);
    push_all(&mut out, &frame);
    out
}

/// A PUSH_PROMISE frame: the stream it rides on, the stream it reserves,
/// the header block fragment of the promised request, END_HEADERS, and
/// its padding.
#[derive(Clone, Debug, PartialEq, Eq)]
pub struct PushPromiseFrame {
    pub stream_id: StreamId,
    pub promised_id: StreamId,
    pub fragment: Vec<u8>,
    pub end_headers: bool,
    pub pad_len: Option<u8>,
}

pub open spec fn push_pad(f: PushPromiseFrame) -> nat {
    match f.pad_len {
        Some(p) => p as nat,
        None => 0,
    }
}

pub open spec fn push_pad_field(f: PushPromiseFrame) -> Seq<u8> {
    match f.pad_len {
        Some(p) => seq![p],
        None => Seq::empty(),
    }
}

pub open spec fn push_length(f: PushPromiseFrame) -> nat {
    push_pad_field(f).len() + 4 + f.fragment@.len() + push_pad(f)
}

impl PushPromiseFrame {
    /// A PUSH_PROMISE a server may send: both ids are streams, not the
    /// connection, and the frame fits `max_frame_size`, itself within
    /// 2^24-1.
    pub open spec fn wf(self, max_frame_size: u32) -> bool {
        &&& self.stream_id.wf()
        &&& self.stream_id.spec_id() != 0
        &&& self.promised_id.wf()
        &&& self.promised_id.spec_id() != 0
        &&& max_frame_size <= MAX_FRAME_LENGTH
        &&& push_length(self) <= max_frame_size
    }
}

/// The octets of a PUSH_PROMISE frame; padding octets are zero.
pub open spec fn push_promise_bytes(f: PushPromiseFrame) -> Seq<u8> {
    head_bytes(
        push_length(f) as u32,
        PUSH_PROMISE,
        headers_flags(false, f.end_headers, f.pad_len is Some, false),
        f.stream_id.spec_id(),
    ) + push_pad_field(f) + be_u32_bytes(f.promised_id.spec_id() as u32) + f.fragment@ + Seq::new(
        push_pad(f),
        |i: int| 0u8,
    )
}

/// What a buffer holding exactly one PUSH_PROMISE frame decodes to: the
/// stream id, the promised id, the fragment, END_HEADERS and the pad
/// length. A payload longer than `max_frame_size` is a FRAME_SIZE_ERROR; a
/// frame on stream zero, a promised id of zero, or padding that leaves no
/// room, is a PROTOCOL_ERROR.
pub open spec fn parse_push_promise(b: Seq<u8>, max_frame_size: u32) -> Result<
    (nat, nat, Seq<u8>, bool, Option<u8>),
    Reason,
> {
    if b.len() < 9 || b.len() != 9 + head_length(b) {
        Err(Reason::FrameSizeError)
    } else if b[3] != PUSH_PROMISE {
        Err(Reason::ProtocolError)
    } else if head_length(b) > max_frame_size {
        Err(Reason::FrameSizeError)
    } else if head_stream_id(b) == 0 {
        Err(Reason::ProtocolError)
    } else {
        let padded = b[4] & PADDED == PADDED;
        let pad_field: int = if padded { 1 } else { 0 };
        if head_length(b) < pad_field + 4 {
            Err(Reason::ProtocolError)
        } else {
            let pad: int = if padded { b[9] as int } else { 0 };
            let promised = payload_word(b, pad_field) & 0x7fff_ffff;
            if pad_field + 4 + pad > head_length(b) || promised == 0 {
                Err(Reason::ProtocolError)
            } else {
                Ok(
                    (
                        head_stream_id(b) as nat,
                        promised as nat,
                        b.subrange(9 + pad_field + 4, b.len() - pad),
                        b[4] & END_HEADERS == END_HEADERS,
                        if padded { Some(b[9]) } else { None },
                    ),
                )
            }
        }
    }
}

impl PushPromiseFrame {
    /// Serializes the frame; padding octets are zero.
    pub fn encode(&self, max_frame_size: u32) -> (r: Vec<u8>)
        requires
            self.wf(max_frame_size),
        ensures
            r@ == push_promise_bytes(*self),
    {
        let mut flags: u8 = 0;
        let mut length: u32 = 4 + self.fragment.len() as u32;
        if self.end_headers {
            flags = flags + END_HEADERS;
        }
        if let Some(p) = self.pad_len {
            flags = flags + PADDED;
            length = length + 1 + p as u32;
        }
        let mut out: Vec<u8> = Vec::new();
        push_head(&mut out, length, PUSH_PROMISE, flags, self.stream_id.as_u32());
        if let Some(p) = self.pad_len {
            out.push(p);
        }
        push_u32(&mut out, self.promised_id.as_u32());
        push_all(&mut out, &self.fragment);
        if let Some(p) = self.pad_len {
            push_zeros(&mut out, p);
        } else {
            assert(Seq::new(0nat, |i: int| 0u8) =~= Seq::<u8>::empty());
        }
        assert(out@ =~= push_promise_bytes(*self));
        out
    }

    /// Parses a buffer that holds exactly one PUSH_PROMISE frame.
    pub fn decode(buf: &[u8], max_frame_size: u32) -> (r: Result<PushPromiseFrame, Reason>)
        ensures
            match r {
                Ok(f) => parse_push_promise(buf@, max_frame_size) == Ok::<
                    (nat, nat, Seq<u8>, bool, Option<u8>),
                    Reason,
                >(
                    (
                        f.stream_id.spec_id(),
                        f.promised_id.spec_id(),
                        f.fragment@,
                        f.end_headers,
                        f.pad_len,
                    ),
                ),
                Err(e) => parse_push_promise(buf@, max_frame_size) == Err::<
                    (nat, nat, Seq<u8>, bool, Option<u8>),
                    Reason,
                >(e),
            },
    {
        if buf.len() < 9 {
            return Err(Reason::FrameSizeError);
        }
        let length = read_u32(buf, 0) >> 8u32;
        assert(length == head_length(buf@)) by {
            let (b0, b1, b2, b3) = (buf@[0], buf@[1], buf@[2], buf@[3]);
            assert(be_u32_value(b0, b1, b2, b3) >> 8u32 == be_u32_value(0, b0, b1, b2))
                by (bit_vector);
        }
        if length as usize != buf.len() - 9 {
            return Err(Reason::FrameSizeError);
        }
        if buf[3] != PUSH_PROMISE {
            return Err(Reason::ProtocolError);
        }
        if length > max_frame_size {
            return Err(Reason::FrameSizeError);
        }
        let id = read_u32(buf, 5) & MAX_STREAM_ID;
        proof {
            lemma_mask_31(be_u32_value(buf@[5], buf@[6], buf@[7], buf@[8]));
        }
        if id == 0 {
            return Err(Reason::ProtocolError);
        }
        let padded = buf[4] & PADDED == PADDED;
        let pad_field: usize = if padded { 1 } else { 0 };
        if (length as usize) < pad_field + 4 {
            return Err(Reason::ProtocolError);
        }
        let pad: usize = if padded { buf[9] as usize } else { 0 };
        let word = read_u32(buf, 9 + pad_field);
        let promised = word & MAX_STREAM_ID;
        proof {
            lemma_mask_31(word);
        }
        if pad_field + 4 + pad > length as usize || promised == 0 {
            return Err(Reason::ProtocolError);
        }
        let fragment = slice_to_vec(slice_subrange(buf, 9 + pad_field + 4, buf.len() - pad));
        Ok(
            PushPromiseFrame {
                stream_id: StreamId::new(id),
                promised_id: StreamId::new(promised),
                fragment,
                end_headers: buf[4] & END_HEADERS == END_HEADERS,
                pad_len: if padded { Some(buf[9]) } else { None },
            },
        )
    }
}

/// Framing round trip for PUSH_PROMISE: a well-formed PUSH_PROMISE frame
/// decodes from its own encoding to its stream, promised stream, fragment,
/// END_HEADERS and pad length.
pub proof fn lemma_push_promise_round_trip(f: PushPromiseFrame, max_frame_size: u32)
    requires
        f.wf(max_frame_size),
    ensures
        parse_push_promise(push_promise_bytes(f), max_frame_size) == Ok::<
            (nat, nat, Seq<u8>, bool, Option<u8>),
            Reason,
        >((f.stream_id.spec_id(), f.promised_id.spec_id(), f.fragment@, f.end_headers, f.pad_len)),
{
    let b = push_promise_bytes(f);
    let pd = f.pad_len is Some;
    let flags = headers_flags(false, f.end_headers, pd, false);
    lemma_head_round_trip(push_length(f) as u32, PUSH_PROMISE, flags, f.stream_id.spec_id());
    lemma_headers_flags(false, f.end_headers, pd, false);
    let pad_field: int = if pd { 1 } else { 0 };
    if let Some(p) = f.pad_len {
        assert(b[9] == p);
    }
    let promised = f.promised_id.spec_id() as u32;
    lemma_be_u32_round_trip(promised);
    assert(payload_word(b, pad_field) == promised);
    assert(promised & 0x7fff_ffff == promised) by (bit_vector)
        requires
            promised <= 0x7fff_ffff,
    ;
    let pad: int = push_pad(f) as int;
    assert(b.subrange(9 + pad_field + 4, b.len() - pad) =~= f.fragment@);
}

} // verus!
