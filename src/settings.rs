use crate::error::UserError;
use crate::frame::{be_u32_value, read_u32, Reason, MAX_STREAM_ID};
use vstd::prelude::*;

verus! {

pub const HEADER_TABLE_SIZE: u16 = 1;
pub const ENABLE_PUSH: u16 = 2;
pub const MAX_CONCURRENT_STREAMS: u16 = 3;
pub const INITIAL_WINDOW_SIZE: u16 = 4;
pub const MAX_FRAME_SIZE: u16 = 5;
pub const MAX_HEADER_LIST_SIZE: u16 = 6;

/// The smallest and the largest frame size a peer may ask for.
pub const DEFAULT_MAX_FRAME_SIZE: u32 = 16_384;
pub const MAX_MAX_FRAME_SIZE: u32 = 16_777_215;

/// The settings in effect for one direction; a value the peer never sent
/// stays as it was.
#[derive(Clone, Copy, Debug, PartialEq, Eq, Structural)]
pub struct Settings {
    pub header_table_size: u32,
    pub enable_push: bool,
    pub max_concurrent_streams: Option<u32>,
    pub initial_window_size: u32,
    pub max_frame_size: u32,
    pub max_header_list_size: Option<u32>,
}

/// Whether a setting's value is one a peer may send.
pub open spec fn setting_valid(id: u16, value: u32) -> bool {
    if id == ENABLE_PUSH {
        value <= 1
    } else if id == INITIAL_WINDOW_SIZE {
        value <= MAX_STREAM_ID
    } else if id == MAX_FRAME_SIZE {
        DEFAULT_MAX_FRAME_SIZE <= value <= MAX_MAX_FRAME_SIZE
    } else {
        true
    }
}

/// The settings after one (id, value) pair; unknown ids change nothing.
pub open spec fn with_setting(s: Settings, id: u16, value: u32) -> Settings {
    if id == HEADER_TABLE_SIZE {
        Settings { header_table_size: value, ..s }
    } else if id == ENABLE_PUSH {
        Settings { enable_push: value == 1, ..s }
    } else if id == MAX_CONCURRENT_STREAMS {
        Settings { max_concurrent_streams: Some(value), ..s }
    } else if id == INITIAL_WINDOW_SIZE {
        Settings { initial_window_size: value, ..s }
    } else if id == MAX_FRAME_SIZE {
        Settings { max_frame_size: value, ..s }
    } else if id == MAX_HEADER_LIST_SIZE {
        Settings { max_header_list_size: Some(value), ..s }
    } else {
        s
    }
}

/// The error of a setting whose value a peer may not send.
pub open spec fn setting_error(id: u16) -> Reason {
    if id == INITIAL_WINDOW_SIZE {
        Reason::FlowControlError
    } else {
        Reason::ProtocolError
    }
}

/// The identifier of the entry at the start of `b`.
pub open spec fn entry_id(b: Seq<u8>) -> u16 {
    (b[0] as nat * 256 + b[1] as nat) as u16
}

/// The settings after the entries of `b`, six octets each, in order; the
/// first invalid one is the error.
pub open spec fn apply_entries(s: Settings, b: Seq<u8>) -> Result<Settings, Reason>
    decreases b.len(),
{
    if b.len() < 6 {
        Ok(s)
    } else {
        let id = entry_id(b);
        let value = be_u32_value(b[2], b[3], b[4], b[5]);
        if !setting_valid(id, value) {
            Err(setting_error(id))
        } else {
            apply_entries(with_setting(s, id, value), b.subrange(6, b.len() as int))
        }
    }
}

/// The settings after a SETTINGS payload: a payload that is not a whole
/// number of six-octet entries is a FRAME_SIZE_ERROR.
pub open spec fn settings_after(s: Settings, b: Seq<u8>) -> Result<Settings, Reason> {
    if b.len() % 6 != 0 {
        Err(Reason::FrameSizeError)
    } else {
        apply_entries(s, b)
    }
}

impl Settings {
    /// Applies a received SETTINGS payload as one: either every entry
    /// takes effect, in order, or, on the first error, none does.
    pub fn apply_payload(&mut self, payload: &[u8]) -> (r: Result<(), Reason>)
        ensures
            match settings_after(*old(self), payload@) {
                Ok(t) => r is Ok && *final(self) == t,
                Err(e) => r == Err::<(), Reason>(e) && *final(self) == *old(self),
            },
    {
        if payload.len() % 6 != 0 {
            return Err(Reason::FrameSizeError);
        }
        let mut cur = *self;
        let mut pos: usize = 0;
        assert(payload@.subrange(0, payload@.len() as int) =~= payload@);
        while pos < payload.len()
            invariant
                payload@.len() % 6 == 0,
                pos % 6 == 0,
                pos <= payload@.len(),
                *self == *old(self),
                settings_after(*old(self), payload@) == apply_entries(
                    cur,
                    payload@.subrange(pos as int, payload@.len() as int),
                ),
            decreases payload@.len() - pos,
        {
            let ghost rest = payload@.subrange(pos as int, payload@.len() as int);
            let id: u16 = ((payload[pos] as u32) * 256 + (payload[pos + 1] as u32)) as u16;
            let value = read_u32(payload, pos + 2);
            assert(id == entry_id(rest));
            assert(value == be_u32_value(rest[2], rest[3], rest[4], rest[5]));
            assert(rest.subrange(6, rest.len() as int) =~= payload@.subrange(
                pos + 6,
                payload@.len() as int,
            ));
            match cur.apply(id, value) {
                Ok(()) => {},
                Err(e) => {
                    return Err(e);
                },
            }
            pos = pos + 6;
        }
        assert(payload@.subrange(pos as int, payload@.len() as int).len() == 0);
        *self = cur;
        Ok(())
    }

    /// The values in effect before any SETTINGS frame.
    pub fn initial() -> (r: Settings)
        ensures
            r.header_table_size == 4096,
            r.enable_push,
            r.max_concurrent_streams is None,
            r.initial_window_size == 65_535,
            r.max_frame_size == DEFAULT_MAX_FRAME_SIZE,
            r.max_header_list_size is None,
    {
        Settings {
            header_table_size: 4096,
            enable_push: true,
            max_concurrent_streams: None,
            initial_window_size: 65_535,
            max_frame_size: DEFAULT_MAX_FRAME_SIZE,
            max_header_list_size: None,
        }
    }

    /// Applies one received setting. An ENABLE_PUSH other than 0 or 1, or a
    /// MAX_FRAME_SIZE outside [16384, 16777215], is a PROTOCOL_ERROR; an
    /// INITIAL_WINDOW_SIZE above 2^31-1 is a FLOW_CONTROL_ERROR. On error
    /// nothing changes.
    pub fn apply(&mut self, id: u16, value: u32) -> (r: Result<(), Reason>)
        ensures
            r is Ok <==> setting_valid(id, value),
            r is Ok ==> *final(self) == with_setting(*old(self), id, value),
            r is Err ==> *final(self) == *old(self),
            r is Err && id == INITIAL_WINDOW_SIZE ==> r == Err::<(), Reason>(
                Reason::FlowControlError,
            ),
            r is Err && id != INITIAL_WINDOW_SIZE ==> r == Err::<(), Reason>(
                Reason::ProtocolError,
            ),
    {
        if id == HEADER_TABLE_SIZE {
            self.header_table_size = value;
        } else if id == ENABLE_PUSH {
            if value > 1 {
                return Err(Reason::ProtocolError);
            }
            self.enable_push = value == 1;
        } else if id == MAX_CONCURRENT_STREAMS {
            self.max_concurrent_streams = Some(value);
        } else if id == INITIAL_WINDOW_SIZE {
            if value > MAX_STREAM_ID {
                return Err(Reason::FlowControlError);
            }
            self.initial_window_size = value;
        } else if id == MAX_FRAME_SIZE {
            if value < DEFAULT_MAX_FRAME_SIZE || value > MAX_MAX_FRAME_SIZE {
                return Err(Reason::ProtocolError);
            }
            self.max_frame_size = value;
        } else if id == MAX_HEADER_LIST_SIZE {
            self.max_header_list_size = Some(value);
        }
        Ok(())
    }
}

/// This side's settings: those in effect, and those sent and awaiting the
/// peer's acknowledgement, which take effect when it arrives.
#[derive(Clone, Copy, Debug, PartialEq, Eq, Structural)]
pub struct LocalSettings {
    pub current: Settings,
    pub pending: Option<Settings>,
}

impl LocalSettings {
    pub fn new(current: Settings) -> (r: LocalSettings)
        ensures
            r.current == current,
            r.pending is None,
    {
        LocalSettings { current, pending: None }
    }

    /// Records settings being sent; only one SETTINGS may await its
    /// acknowledgement at a time.
    pub fn send_settings(&mut self, settings: Settings) -> (r: Result<(), UserError>)
        ensures
            old(self).pending is Some ==> r == Err::<(), UserError>(
                UserError::SendSettingsWhilePending,
            ) && *final(self) == *old(self),
            old(self).pending is None ==> r is Ok && final(self).current == old(self).current
                && final(self).pending == Some(settings),
    {
        if self.pending.is_some() {
            return Err(UserError::SendSettingsWhilePending);
        }
        self.pending = Some(settings);
        Ok(())
    }

    /// The peer acknowledged our SETTINGS: they take effect. An
    /// acknowledgement of nothing is a PROTOCOL_ERROR and changes nothing.
    pub fn recv_ack(&mut self) -> (r: Result<(), Reason>)
        ensures
            old(self).pending matches Some(s) ==> r is Ok && final(self).current == s
                && final(self).pending is None,
            old(self).pending is None ==> r == Err::<(), Reason>(Reason::ProtocolError)
                && *final(self) == *old(self),
    {
        match self.pending {
            Some(s) => {
                self.current = s;
                self.pending = None;
                Ok(())
            },
            None => Err(Reason::ProtocolError),
        }
    }
}

} // verus!
