use crate::error::UserError;
use crate::frame::{Reason, MAX_STREAM_ID};
use vstd::prelude::*;

verus! {

/// The window that the connection starts with, whatever the settings say.
pub const DEFAULT_CONNECTION_WINDOW: u32 = 65_535;

/// One flow-control window, of a stream or of the connection, in one
/// direction: the credit left for DATA payload octets.
///
/// Beside the window it keeps, as ghost state, what made it: the initial
/// size, the WINDOW_UPDATE increments, the raises and cuts that changes of
/// SETTINGS_INITIAL_WINDOW_SIZE brought, and the octets consumed by DATA.
pub struct FlowControl {
    window: i64,
    initial: Ghost<int>,
    increments: Ghost<int>,
    raised: Ghost<int>,
    lowered: Ghost<int>,
    consumed: Ghost<int>,
}

impl FlowControl {
    pub closed spec fn window(self) -> int {
        self.window as int
    }

    pub closed spec fn initial(self) -> int {
        self.initial@
    }

    pub closed spec fn increments(self) -> int {
        self.increments@
    }

    pub closed spec fn raised(self) -> int {
        self.raised@
    }

    pub closed spec fn lowered(self) -> int {
        self.lowered@
    }

    pub closed spec fn consumed(self) -> int {
        self.consumed@
    }

    /// The window is what was granted less what was consumed; it never
    /// exceeds 2^31-1, and no more was consumed than was ever granted.
    pub open spec fn wf(self) -> bool {
        &&& self.window() == self.initial() + self.increments() + self.raised() - self.lowered()
            - self.consumed()
        &&& -MAX_STREAM_ID <= self.window() <= MAX_STREAM_ID
        &&& self.initial() >= 0
        &&& self.increments() >= 0
        &&& self.raised() >= 0
        &&& self.lowered() >= 0
        &&& 0 <= self.consumed() <= self.initial() + self.increments() + self.raised()
    }

    pub fn new(initial: u32) -> (r: FlowControl)
        requires
            initial <= MAX_STREAM_ID,
        ensures
            r.wf(),
            r.window() == initial,
            r.initial() == initial,
            r.increments() == 0,
            r.raised() == 0,
            r.lowered() == 0,
            r.consumed() == 0,
    {
        FlowControl {
            window: initial as i64,
            initial: Ghost(initial as int),
            increments: Ghost(0),
            raised: Ghost(0),
            lowered: Ghost(0),
            consumed: Ghost(0),
        }
    }

    /// The current window, which a cut of the initial size may have made
    /// negative.
    pub fn window_size(&self) -> (r: i64)
        ensures
            r == self.window(),
    {
        self.window
    }

    /// The octets that may be sent now: the window, or zero when it is
    /// negative.
    pub fn available(&self) -> (r: u32)
        requires
            self.wf(),
        ensures
            r == if self.window() < 0 { 0 } else { self.window() },
    {
        if self.window < 0 {
            0
        } else {
            self.window as u32
        }
    }

    /// Applies a WINDOW_UPDATE increment; a window pushed past 2^31-1 is a
    /// FLOW_CONTROL_ERROR and leaves the window as it was.
    pub fn inc_window(&mut self, n: u32) -> (r: Result<(), Reason>)
        requires
            old(self).wf(),
        ensures
            final(self).wf(),
            r is Err <==> old(self).window() + n > MAX_STREAM_ID,
            r is Err ==> r == Err::<(), Reason>(Reason::FlowControlError) && *final(self) == *old(
                self,
            ),
            r is Ok ==> final(self).window() == old(self).window() + n && final(self).increments()
                == old(self).increments() + n && final(self).initial() == old(self).initial()
                && final(self).raised() == old(self).raised() && final(self).lowered() == old(
                self,
            ).lowered() && final(self).consumed() == old(self).consumed(),
    {
        if self.window + n as i64 > MAX_STREAM_ID as i64 {
            return Err(Reason::FlowControlError);
        }
        self.window = self.window + n as i64;
        self.increments = Ghost(self.increments@ + n);
        Ok(())
    }

    /// Moves the window by the change of SETTINGS_INITIAL_WINDOW_SIZE from
    /// `old_size` to `new_size`. A window pushed past 2^31-1 is a
    /// FLOW_CONTROL_ERROR, and the window is left as it was. Windows are
    /// signed 32-bit credits, so a window pushed below -(2^31-1) could not
    /// be held either; it too is refused with FLOW_CONTROL_ERROR.
    pub fn apply_initial_window_change(&mut self, old_size: u32, new_size: u32) -> (r: Result<
        (),
        Reason,
    >)
        requires
            old(self).wf(),
            old_size <= MAX_STREAM_ID,
            new_size <= MAX_STREAM_ID,
        ensures
            final(self).wf(),
            ({
                let w = old(self).window() + new_size - old_size;
                &&& r is Err <==> (w > MAX_STREAM_ID || w < -MAX_STREAM_ID)
                &&& r is Err ==> r == Err::<(), Reason>(Reason::FlowControlError) && *final(self)
                    == *old(self)
                &&& r is Ok ==> final(self).window() == w
            }),
            final(self).initial() == old(self).initial(),
            final(self).increments() == old(self).increments(),
            final(self).consumed() == old(self).consumed(),
    {
        let w = self.window + new_size as i64 - old_size as i64;
        if w > MAX_STREAM_ID as i64 || w < -(MAX_STREAM_ID as i64) {
            return Err(Reason::FlowControlError);
        }
        self.window = w;
        if new_size >= old_size {
            self.raised = Ghost(self.raised@ + (new_size - old_size));
        } else {
            self.lowered = Ghost(self.lowered@ + (old_size - new_size));
        }
        Ok(())
    }

    /// Consumes window for `n` octets of DATA that are sent; the caller may
    /// send no more than the window allows.
    pub fn send_data(&mut self, n: u32)
        requires
            old(self).wf(),
            n <= old(self).window(),
        ensures
            final(self).wf(),
            final(self).window() == old(self).window() - n,
            final(self).consumed() == old(self).consumed() + n,
            final(self).initial() == old(self).initial(),
            final(self).increments() == old(self).increments(),
            final(self).raised() == old(self).raised(),
            final(self).lowered() == old(self).lowered(),
    {
        self.window = self.window - n as i64;
        self.consumed = Ghost(self.consumed@ + n);
    }

    /// Consumes window for `n` octets of DATA that arrived, padding
    /// included; more than the window is a FLOW_CONTROL_ERROR and leaves the
    /// window as it was.
    pub fn recv_data(&mut self, n: u32) -> (r: Result<(), Reason>)
        requires
            old(self).wf(),
        ensures
            final(self).wf(),
            r is Err <==> n > old(self).window(),
            r is Err ==> r == Err::<(), Reason>(Reason::FlowControlError) && *final(self) == *old(
                self,
            ),
            r is Ok ==> final(self).window() == old(self).window() - n && final(self).consumed()
                == old(self).consumed() + n && final(self).initial() == old(self).initial()
                && final(self).increments() == old(self).increments() && final(self).raised()
                == old(self).raised() && final(self).lowered() == old(self).lowered(),
    {
        if n as i64 > self.window {
            return Err(Reason::FlowControlError);
        }
        self.send_data(n);
        Ok(())
    }
}

/// The receiving side of a window: what the peer may still send, the
/// octets received and not yet consumed by the user, and the octets
/// consumed but not yet announced to the peer with WINDOW_UPDATE. The three
/// always add up to the window this side advertised.
pub struct RecvFlow {
    flow: FlowControl,
    buffered: u32,
    unclaimed: u32,
    target: u32,
    threshold: u32,
}

impl RecvFlow {
    /// The window the peer may still fill.
    pub closed spec fn window(self) -> int {
        self.flow.window()
    }

    pub closed spec fn buffered(self) -> nat {
        self.buffered as nat
    }

    pub closed spec fn unclaimed(self) -> nat {
        self.unclaimed as nat
    }

    /// The size of the advertised window.
    pub closed spec fn target(self) -> nat {
        self.target as nat
    }

    /// The unannounced credit at which a WINDOW_UPDATE goes out.
    pub closed spec fn threshold(self) -> nat {
        self.threshold as nat
    }

    pub closed spec fn wf(self) -> bool {
        &&& self.flow.wf()
        &&& self.flow.raised() == 0
        &&& self.flow.lowered() == 0
        &&& self.flow.window() >= 0
        &&& self.target <= MAX_STREAM_ID
        &&& self.threshold >= 1
        &&& self.flow.window() + self.buffered + self.unclaimed == self.target
    }

    /// Every octet the window gave up is either buffered or awaiting
    /// announcement.
    pub proof fn lemma_recv_accounting(self)
        requires
            self.wf(),
        ensures
            self.window() + self.buffered() + self.unclaimed() == self.target(),
            0 <= self.window() <= self.target(),
    {
    }

    /// A window of `target` octets that announces consumed credit once it
    /// reaches `threshold` (half the window, typically).
    pub fn new(target: u32, threshold: u32) -> (r: RecvFlow)
        requires
            target <= MAX_STREAM_ID,
            threshold >= 1,
        ensures
            r.wf(),
            r.window() == target,
            r.buffered() == 0,
            r.unclaimed() == 0,
            r.target() == target,
            r.threshold() == threshold,
    {
        RecvFlow { flow: FlowControl::new(target), buffered: 0, unclaimed: 0, target, threshold }
    }

    /// Receives `n` octets of DATA; more than the window is a
    /// FLOW_CONTROL_ERROR and changes nothing.
    pub fn recv_data(&mut self, n: u32) -> (r: Result<(), Reason>)
        requires
            old(self).wf(),
        ensures
            final(self).wf(),
            final(self).target() == old(self).target(),
            final(self).threshold() == old(self).threshold(),
            final(self).unclaimed() == old(self).unclaimed(),
            r is Err <==> n > old(self).window(),
            r is Err ==> r == Err::<(), Reason>(Reason::FlowControlError) && final(self).window()
                == old(self).window() && final(self).buffered() == old(self).buffered(),
            r is Ok ==> final(self).window() == old(self).window() - n && final(self).buffered()
                == old(self).buffered() + n,
    {
        let r = self.flow.recv_data(n);
        if r.is_ok() {
            self.buffered = self.buffered + n;
        }
        r
    }

    /// The user consumed `n` buffered octets. Releasing more than is
    /// buffered is a user error and changes nothing. Once the consumed,
    /// unannounced credit reaches the threshold, all of it is returned to
    /// the window and is the increment of the WINDOW_UPDATE to send.
    pub fn release(&mut self, n: u32) -> (r: Result<Option<u32>, UserError>)
        requires
            old(self).wf(),
        ensures
            final(self).wf(),
            final(self).target() == old(self).target(),
            final(self).threshold() == old(self).threshold(),
            r is Err <==> n > old(self).buffered(),
            r is Err ==> r == Err::<Option<u32>, UserError>(UserError::ReleaseCapacityTooBig)
                && final(self).window() == old(self).window() && final(self).buffered() == old(
                self,
            ).buffered() && final(self).unclaimed() == old(self).unclaimed(),
            r is Ok ==> final(self).buffered() == old(self).buffered() - n,
            r matches Ok(Some(inc)) ==> inc > 0,
            r is Ok && old(self).unclaimed() + n >= old(self).threshold() ==> r == Ok::<
                Option<u32>,
                UserError,
            >(Some((old(self).unclaimed() + n) as u32)) && final(self).unclaimed() == 0
                && final(self).window() == old(self).window() + old(self).unclaimed() + n,
            r is Ok && old(self).unclaimed() + n < old(self).threshold() ==> r == Ok::<
                Option<u32>,
                UserError,
            >(None) && final(self).unclaimed() == old(self).unclaimed() + n
                && final(self).window() == old(self).window(),
    {
        if n > self.buffered {
            return Err(UserError::ReleaseCapacityTooBig);
        }
        self.buffered = self.buffered - n;
        self.unclaimed = self.unclaimed + n;
        if self.unclaimed >= self.threshold {
            let inc = self.unclaimed;
            let _ = self.flow.inc_window(inc);
            self.unclaimed = 0;
            Ok(Some(inc))
        } else {
            Ok(None)
        }
    }
}

/// The connection's send or receive window. It starts at 65 535 octets
/// and only WINDOW_UPDATE frames on stream zero raise it: SETTINGS never
/// move it, so it has no way to take a change of the initial window size.
pub struct ConnectionFlow {
    flow: FlowControl,
}

impl ConnectionFlow {
    /// The window underneath.
    pub closed spec fn flow(self) -> FlowControl {
        self.flow
    }

    pub open spec fn wf(self) -> bool {
        &&& self.flow().wf()
        &&& self.flow().initial() == DEFAULT_CONNECTION_WINDOW
        &&& self.flow().raised() == 0
        &&& self.flow().lowered() == 0
    }

    pub fn new() -> (r: ConnectionFlow)
        ensures
            r.wf(),
            r.flow().window() == DEFAULT_CONNECTION_WINDOW,
            r.flow().increments() == 0,
            r.flow().consumed() == 0,
    {
        ConnectionFlow { flow: FlowControl::new(DEFAULT_CONNECTION_WINDOW) }
    }

    pub fn as_flow(&self) -> (r: &FlowControl)
        ensures
            *r == self.flow(),
    {
        &self.flow
    }

    pub fn window_size(&self) -> (r: i64)
        ensures
            r == self.flow().window(),
    {
        self.flow.window_size()
    }

    /// Applies a WINDOW_UPDATE on stream zero, as [`FlowControl::inc_window`].
    pub fn inc_window(&mut self, n: u32) -> (r: Result<(), Reason>)
        requires
            old(self).wf(),
        ensures
            final(self).wf(),
            r is Err <==> old(self).flow().window() + n > MAX_STREAM_ID,
            r is Err ==> r == Err::<(), Reason>(Reason::FlowControlError) && *final(self) == *old(
                self,
            ),
            r is Ok ==> final(self).flow().window() == old(self).flow().window() + n
                && final(self).flow().increments() == old(self).flow().increments() + n
                && final(self).flow().consumed() == old(self).flow().consumed(),
    {
        self.flow.inc_window(n)
    }

    /// Consumes window for DATA sent on any stream.
    pub fn send_data(&mut self, n: u32)
        requires
            old(self).wf(),
            n <= old(self).flow().window(),
        ensures
            final(self).wf(),
            final(self).flow().window() == old(self).flow().window() - n,
            final(self).flow().consumed() == old(self).flow().consumed() + n,
            final(self).flow().increments() == old(self).flow().increments(),
    {
        self.flow.send_data(n)
    }

    /// Consumes window for DATA received on any stream, as
    /// [`FlowControl::recv_data`].
    pub fn recv_data(&mut self, n: u32) -> (r: Result<(), Reason>)
        requires
            old(self).wf(),
        ensures
            final(self).wf(),
            r is Err <==> n > old(self).flow().window(),
            r is Err ==> r == Err::<(), Reason>(Reason::FlowControlError) && *final(self) == *old(
                self,
            ),
            r is Ok ==> final(self).flow().window() == old(self).flow().window() - n
                && final(self).flow().consumed() == old(self).flow().consumed() + n
                && final(self).flow().increments() == old(self).flow().increments(),
    {
        self.flow.recv_data(n)
    }
}

/// Flow-control conservation for the connection: the DATA octets of all
/// streams together never exceed 65 535 plus the increments of the
/// WINDOW_UPDATE frames on stream zero, whatever SETTINGS did.
pub proof fn lemma_connection_conservation(c: ConnectionFlow)
    requires
        c.wf(),
    ensures
        c.flow().consumed() <= DEFAULT_CONNECTION_WINDOW + c.flow().increments(),
{
}

/// Flow-control conservation: the octets consumed from a window never
/// exceed its initial size plus every increment received plus every raise
/// of the initial size. A window whose initial size never rose (the
/// connection's, or a stream's while SETTINGS_INITIAL_WINDOW_SIZE stays)
/// has consumed at most its initial size plus its increments.
pub proof fn lemma_flow_conservation(f: FlowControl)
    requires
        f.wf(),
    ensures
        f.consumed() <= f.initial() + f.increments() + f.raised(),
        f.raised() == 0 ==> f.consumed() <= f.initial() + f.increments(),
{
}

/// The octets of DATA that one frame may carry: the least of what is left
/// to send, the stream's window, the connection's window and the largest
/// frame size; zero when either window is empty or negative.
pub open spec fn sendable(remaining: int, stream: int, conn: int, max_frame_size: int) -> int {
    let s = if stream < 0 { 0 } else { stream };
    let c = if conn < 0 { 0 } else { conn };
    let m1 = if remaining < s { remaining } else { s };
    let m2 = if m1 < c { m1 } else { c };
    if m2 < max_frame_size { m2 } else { max_frame_size }
}

/// How much of `remaining` octets to put in the next DATA frame.
pub fn send_capacity(
    remaining: u32,
    stream: &FlowControl,
    conn: &FlowControl,
    max_frame_size: u32,
) -> (r: u32)
    requires
        stream.wf(),
        conn.wf(),
    ensures
        r == sendable(remaining as int, stream.window(), conn.window(), max_frame_size as int),
        r <= remaining,
        r <= max_frame_size,
        r > 0 ==> r <= stream.window() && r <= conn.window(),
{
    let s = stream.available();
    let c = conn.available();
    let m1 = if remaining < s { remaining } else { s };
    let m2 = if m1 < c { m1 } else { c };
    if m2 < max_frame_size { m2 } else { max_frame_size }
}

} // verus!
