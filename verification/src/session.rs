//! Per-connection decision logic.
//!
//! A connection runs two tasks outside the library: one relays the hub's
//! messages to the socket, one reads frames from the socket. Both hand every
//! observation to the functions here and perform exactly the action decided:
//! the decisions are verified, the I/O around them is not. A decode failure
//! skips the frame and keeps the connection; a text frame draws a fixed
//! rejection notice and ends it; socket errors, closure and the idle timeout
//! end it; a subscriber that lags too many times in a row is torn down.

use vstd::prelude::*;
use crate::codec::{decode_ws_message, spec_decode, DecodeError};
use crate::dispatch::{canvas_engine, canvas_painting, dispatch_post, WsPayload};
use crate::grid::GameOfLifeBits;
use crate::painting::MonaLisaPainting;

verus! {

/// Why a connection task ends.
#[derive(Clone, Copy, Debug, PartialEq, Eq, Structural)]
pub enum SocketError {
    /// A socket write failed.
    SendError,
    /// A socket read failed, or the subscriber lagged past the limit.
    ReceiveError,
    /// The idle timeout elapsed with no inbound activity.
    Timeout,
    /// The peer closed the connection, or the hub shut down.
    ConnectionClosed,
}

/// One observation of the inbound task.
pub enum InboundEvent {
    /// A binary frame with these bytes.
    Binary(Vec<u8>),
    /// A text frame (its content does not matter: text is not supported).
    Text,
    /// A control frame (ping/pong); nothing to do.
    Control,
    /// The peer closed the stream.
    Closed,
    /// The socket read failed.
    Failed,
    /// No inbound activity within the idle window.
    TimedOut,
}

/// What the inbound task must do next.
pub enum InboundDecision {
    /// Publish these bytes to the hub and keep reading.
    Publish(Vec<u8>),
    /// Drop this one frame (it did not decode) and keep reading.
    SkipFrame(DecodeError),
    /// Send this notice, then terminate.
    RejectText(String),
    /// Nothing to do; keep reading.
    Ignore,
    /// Terminate with this error; the sibling task is cancelled too.
    Terminate(SocketError),
}

/// The fixed notice a text frame is answered with.
pub open spec fn spec_rejection_notice() -> Seq<char> {
    "Only binary messages are supported"@
}

/// Builds the text-rejection notice.
pub fn text_rejection_notice() -> (s: String)
    ensures
        s@ == spec_rejection_notice(),
{
    String::from_str("Only binary messages are supported")
}

/// What `handle_inbound` decides for every event, and how the shared state
/// moved: only a well-decoded binary frame touches it, through the
/// dispatcher.
pub open spec fn inbound_post(
    event: InboundEvent,
    e0: GameOfLifeBits,
    e1: GameOfLifeBits,
    p0: crate::painting::PaintingModel,
    p1: crate::painting::PaintingModel,
    d: InboundDecision,
) -> bool {
    match event {
        InboundEvent::Binary(data) => (match spec_decode(data@) {
            Ok(m) => (match d {
                InboundDecision::Publish(out) => dispatch_post(m, e0, e1, p0, p1, out@),
                _ => false,
            }),
            Err(err) => d == InboundDecision::SkipFrame(err) && e1 == e0 && p1 == p0,
        }),
        InboundEvent::Text => (match d {
            InboundDecision::RejectText(s) => s@ == spec_rejection_notice() && e1 == e0 && p1
                == p0,
            _ => false,
        }),
        InboundEvent::Control => d is Ignore && e1 == e0 && p1 == p0,
        InboundEvent::Closed => d == InboundDecision::Terminate(SocketError::ConnectionClosed)
            && e1 == e0 && p1 == p0,
        InboundEvent::Failed => d == InboundDecision::Terminate(SocketError::ReceiveError) && e1
            == e0 && p1 == p0,
        InboundEvent::TimedOut => d == InboundDecision::Terminate(SocketError::Timeout) && e1
            == e0 && p1 == p0,
    }
}

/// Decides what one inbound observation means. A frame that decodes is
/// dispatched against the shared state and its reply is published; a frame
/// that does not decode is skipped without ending the connection; a text
/// frame is rejected and ends it; closure, errors and the idle timeout
/// terminate it.
pub fn handle_inbound(
    engine: &mut GameOfLifeBits,
    painting: &mut MonaLisaPainting,
    event: InboundEvent,
) -> (d: InboundDecision)
    requires
        canvas_engine(*old(engine)),
        canvas_painting(*old(painting)),
        old(engine).generation_count < u64::MAX,
    ensures
        canvas_engine(*final(engine)),
        canvas_painting(*final(painting)),
        inbound_post(event, *old(engine), *final(engine), old(painting)@, final(painting)@, d),
{
    match event {
        InboundEvent::Binary(data) => {
            match decode_ws_message(&data) {
                Ok(parsed) => {
                    proof {
                        let m = spec_decode(data@)->Ok_0;
                        assert(m.payload.len() + 7 == data@.len());
                    }
                    let payload = WsPayload { parsed };
                    let out = payload.handle_payload(engine, painting);
                    InboundDecision::Publish(out)
                },
                Err(e) => InboundDecision::SkipFrame(e),
            }
        },
        InboundEvent::Text => InboundDecision::RejectText(text_rejection_notice()),
        InboundEvent::Control => InboundDecision::Ignore,
        InboundEvent::Closed => InboundDecision::Terminate(SocketError::ConnectionClosed),
        InboundEvent::Failed => InboundDecision::Terminate(SocketError::ReceiveError),
        InboundEvent::TimedOut => InboundDecision::Terminate(SocketError::Timeout),
    }
}

/// Counts consecutive slow-consumer events of one subscriber; after the
/// threshold is hit the connection is torn down rather than allowed to fall
/// further behind.
pub struct LagTracker {
    pub consecutive_errors: u32,
    pub threshold: u32,
}

impl LagTracker {
    /// Structural invariant: the count never passes the threshold.
    pub open spec fn wf(self) -> bool {
        self.threshold >= 1 && self.consecutive_errors < self.threshold
    }

    /// A fresh tracker for the given threshold.
    pub fn new(threshold: u32) -> (t: LagTracker)
        requires
            threshold >= 1,
        ensures
            t.wf(),
            t.threshold == threshold,
            t.consecutive_errors == 0,
    {
        LagTracker { consecutive_errors: 0, threshold }
    }

    /// A message was delivered: the consecutive-lag count starts over.
    pub fn on_message(&mut self)
        requires
            old(self).wf(),
        ensures
            final(self).wf(),
            final(self).threshold == old(self).threshold,
            final(self).consecutive_errors == 0,
    {
        self.consecutive_errors = 0;
    }

    /// The subscriber lagged once more. Returns whether the connection must
    /// now be torn down: exactly when the consecutive count reaches the
    /// threshold.
    pub fn on_lag(&mut self) -> (drop_connection: bool)
        requires
            old(self).wf(),
        ensures
            final(self).threshold == old(self).threshold,
            drop_connection == (old(self).consecutive_errors + 1 >= old(self).threshold),
            !drop_connection ==> final(self).wf() && final(self).consecutive_errors == old(
            self).consecutive_errors + 1,
    {
        self.consecutive_errors = self.consecutive_errors + 1;
        self.consecutive_errors >= self.threshold
    }
}

/// The lifecycle of one connection.
#[derive(Clone, Copy, Debug, PartialEq, Eq, Structural)]
pub enum ConnectionState {
    /// Accepted, replay not yet delivered.
    Connecting,
    /// Both tasks running.
    Active,
    /// One task has ended; the sibling is being cancelled.
    Closing,
    /// Both tasks have stopped.
    Terminated,
}

/// Tracks which of a connection's two tasks have ended and in which
/// lifecycle state the connection is.
pub struct ConnectionLifecycle {
    pub state: ConnectionState,
    pub inbound_done: bool,
    pub outbound_done: bool,
}

impl ConnectionLifecycle {
    /// Structural invariant tying the state to the task flags.
    pub open spec fn wf(self) -> bool {
        match self.state {
            ConnectionState::Connecting => !self.inbound_done && !self.outbound_done,
            ConnectionState::Active => !self.inbound_done && !self.outbound_done,
            ConnectionState::Closing => (self.inbound_done || self.outbound_done) && !(
            self.inbound_done && self.outbound_done),
            ConnectionState::Terminated => self.inbound_done && self.outbound_done,
        }
    }

    /// A connection that was just accepted.
    pub fn new() -> (c: ConnectionLifecycle)
        ensures
            c.wf(),
            c.state == ConnectionState::Connecting,
    {
        ConnectionLifecycle { state: ConnectionState::Connecting, inbound_done: false, outbound_done: false }
    }

    /// The replay was delivered and both tasks started.
    pub fn activate(&mut self)
        requires
            old(self).wf(),
            old(self).state == ConnectionState::Connecting,
        ensures
            final(self).wf(),
            final(self).state == ConnectionState::Active,
    {
        self.state = ConnectionState::Active;
    }

    /// One of the two tasks ended. Returns whether the sibling task must be
    /// cancelled now: exactly when this was the first of the two to end.
    pub fn task_ended(&mut self, inbound: bool) -> (cancel_sibling: bool)
        requires
            old(self).wf(),
            old(self).state == ConnectionState::Active || old(self).state
                == ConnectionState::Closing,
            inbound ==> !old(self).inbound_done,
            !inbound ==> !old(self).outbound_done,
        ensures
            final(self).wf(),
            cancel_sibling == (old(self).state == ConnectionState::Active),
            old(self).state == ConnectionState::Active ==> final(self).state
                == ConnectionState::Closing,
            old(self).state == ConnectionState::Closing ==> final(self).state
                == ConnectionState::Terminated,
    {
        let first = matches!(self.state, ConnectionState::Active);
        if inbound {
            self.inbound_done = true;
        } else {
            self.outbound_done = true;
        }
        if first {
            self.state = ConnectionState::Closing;
        } else {
            self.state = ConnectionState::Terminated;
        }
        first
    }
}

} // verus!
