use crate::flow::{sendable, ConnectionFlow, FlowControl};
use crate::frame::Reason;
use crate::state::{next_state, Event, State, StateError};
use vstd::prelude::*;

verus! {

/// What receiving DATA of `len` octets does: the stream's state decides
/// first, then the connection's window, then the stream's.
pub open spec fn recv_data_outcome(
    s: State,
    stream_window: int,
    conn_window: int,
    len: int,
    end_stream: bool,
) -> Result<State, StateError> {
    match next_state(s, Event::RecvData { end_stream }) {
        Err(e) => Err(e),
        Ok(t) => if len > conn_window {
            Err(StateError::Connection(Reason::FlowControlError))
        } else if len > stream_window {
            Err(StateError::Stream(Reason::FlowControlError))
        } else {
            Ok(t)
        },
    }
}

/// Receives a DATA frame of `len` octets (padding included) on a stream.
/// The stream's state decides first; then the connection's window and the
/// stream's window must each hold `len`, or the frame is a
/// FLOW_CONTROL_ERROR of the connection or of the stream. On any error
/// nothing changes; otherwise the state advances and both windows shrink.
pub fn recv_data(
    state: &mut State,
    stream: &mut FlowControl,
    conn: &mut ConnectionFlow,
    len: u32,
    end_stream: bool,
) -> (r: Result<(), StateError>)
    requires
        old(stream).wf(),
        old(conn).wf(),
    ensures
        final(stream).wf(),
        final(conn).wf(),
        match recv_data_outcome(*old(state), old(stream).window(), old(conn).flow().window(), len as int, end_stream) {
            Ok(t) => r is Ok && *final(state) == t && final(stream).window() == old(stream).window() - len
                && final(conn).flow().window() == old(conn).flow().window() - len,
            Err(e) => r == Err::<(), StateError>(e) && *final(state) == *old(state)
                && *final(stream) == *old(stream) && *final(conn) == *old(conn),
        },
{
    let next = match state.transition(Event::RecvData { end_stream }) {
        Ok(s) => s,
        Err(e) => {
            return Err(e);
        },
    };
    if len as i64 > conn.window_size() {
        return Err(StateError::Connection(Reason::FlowControlError));
    }
    if len as i64 > stream.window_size() {
        return Err(StateError::Stream(Reason::FlowControlError));
    }
    // both windows were found to hold `len` above, so neither call fails
    let _ = conn.recv_data(len);
    let _ = stream.recv_data(len);
    *state = next;
    Ok(())
}

/// Whether the next DATA frame ends the stream: END_STREAM was asked and
/// the frame carries all that remains.
pub open spec fn ends_with(
    remaining: u32,
    end_stream: bool,
    stream_window: int,
    conn_window: int,
    max_frame_size: u32,
) -> bool {
    end_stream && sendable(remaining as int, stream_window, conn_window, max_frame_size as int)
        == remaining
}

/// Sends the next DATA frame of a stream that has `remaining` octets to
/// send: as many as [`sendable`] allows under both windows and the frame
/// size. END_STREAM goes on it only when `end_stream` is asked and it
/// carries all that remains. Returns the octets sent and whether the
/// frame ends the stream; a stream whose state forbids sending DATA is a
/// user error and nothing changes.
pub fn send_data(
    state: &mut State,
    stream: &mut FlowControl,
    conn: &mut ConnectionFlow,
    remaining: u32,
    end_stream: bool,
    max_frame_size: u32,
) -> (r: Result<(u32, bool), StateError>)
    requires
        old(stream).wf(),
        old(conn).wf(),
    ensures
        final(stream).wf(),
        final(conn).wf(),
        match next_state(*old(state), Event::SendData { end_stream: ends_with(remaining, end_stream, old(stream).window(), old(conn).flow().window(), max_frame_size) }) {
            Err(e) => r == Err::<(u32, bool), StateError>(e) && *final(state) == *old(state)
                && *final(stream) == *old(stream) && *final(conn) == *old(conn),
            Ok(t) => *final(state) == t && r is Ok && r->Ok_0 == (
                sendable(remaining as int, old(stream).window(), old(conn).flow().window(), max_frame_size as int) as u32,
                ends_with(remaining, end_stream, old(stream).window(), old(conn).flow().window(), max_frame_size),
            ) && final(stream).window() == old(stream).window() - r->Ok_0.0
                && final(conn).flow().window() == old(conn).flow().window() - r->Ok_0.0
                && final(stream).consumed() == old(stream).consumed() + r->Ok_0.0
                && final(conn).flow().consumed() == old(conn).flow().consumed() + r->Ok_0.0,
        },
{
    let n = crate::flow::send_capacity(remaining, stream, conn.as_flow(), max_frame_size);
    let ends = end_stream && n == remaining;
    let next = match state.transition(Event::SendData { end_stream: ends }) {
        Ok(s) => s,
        Err(e) => {
            return Err(e);
        },
    };
    if n > 0 {
        stream.send_data(n);
        conn.send_data(n);
    }
    *state = next;
    Ok((n, ends))
}

} // verus!
