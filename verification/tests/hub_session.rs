//! Broadcast hub and connection-logic tests: replay order, the
//! replay-then-live boundary, zero-subscriber publishing, lag handling and
//! the connection lifecycle.

use canvas_core::grid::GameOfLifeBits;
use canvas_core::hub::BroadcastHub;
use canvas_core::painting::MonaLisaPainting;
use canvas_core::session::{
    handle_inbound, text_rejection_notice, ConnectionLifecycle, ConnectionState, InboundDecision,
    InboundEvent, LagTracker, SocketError,
};

#[test]
fn publish_with_zero_subscribers_succeeds() {
    let mut hub = BroadcastHub::new(8);
    assert_eq!(hub.subscribers, 0);
    let seq = hub.publish(vec![1, 2, 3]);
    assert_eq!(seq, 0);
    let seq = hub.publish(vec![4]);
    assert_eq!(seq, 1);
    assert_eq!(hub.replay, vec![vec![1, 2, 3], vec![4]]);
}

#[test]
fn replay_keeps_publish_order_and_capacity() {
    let mut hub = BroadcastHub::new(3);
    for i in 0..5u8 {
        hub.publish(vec![i]);
    }
    // Only the 3 most recent messages remain, oldest first.
    assert_eq!(hub.replay, vec![vec![2], vec![3], vec![4]]);
    assert_eq!(hub.next_seq, 5);
}

#[test]
fn subscriber_sees_replay_then_live_without_gap_or_duplicate() {
    let mut hub = BroadcastHub::new(10);
    hub.publish(vec![10]);
    hub.publish(vec![11]);

    let (replayed, cursor) = hub.subscribe();
    // The full history arrives first, in publish order.
    assert_eq!(replayed, vec![vec![10], vec![11]]);
    // The live stream starts exactly at the cursor: the next publish gets
    // the cursor's sequence number, so nothing is missed or repeated.
    assert_eq!(cursor, 2);
    let seq = hub.publish(vec![12]);
    assert_eq!(seq, cursor);
    assert_eq!(hub.subscribers, 1);
    hub.unsubscribe();
    assert_eq!(hub.subscribers, 0);
}

fn canvas_pair() -> (GameOfLifeBits, MonaLisaPainting) {
    let engine = GameOfLifeBits::new(100, 100);
    let painting = MonaLisaPainting::new(100, 100, Vec::new());
    (engine, painting)
}

#[test]
fn inbound_text_frame_is_rejected_with_fixed_notice() {
    let (mut engine, mut painting) = canvas_pair();
    let d = handle_inbound(&mut engine, &mut painting, InboundEvent::Text);
    match d {
        InboundDecision::RejectText(s) => {
            assert_eq!(s, "Only binary messages are supported");
        },
        _ => panic!("text frames must be rejected"),
    }
    assert_eq!(text_rejection_notice(), "Only binary messages are supported");
}

#[test]
fn inbound_decode_failure_skips_frame_only() {
    let (mut engine, mut painting) = canvas_pair();
    let before = engine.current_generation.clone();
    let d = handle_inbound(&mut engine, &mut painting, InboundEvent::Binary(vec![9, 9, 9]));
    assert!(matches!(d, InboundDecision::SkipFrame(_)));
    // The grid is untouched and the connection stays up.
    assert_eq!(engine.current_generation, before);
}

#[test]
fn inbound_hello_is_published_as_echo() {
    let (mut engine, mut painting) = canvas_pair();
    let frame = vec![1, 1, 0, 0, 0, 0, 2, 7, 8];
    let d = handle_inbound(&mut engine, &mut painting, InboundEvent::Binary(frame));
    match d {
        InboundDecision::Publish(out) => {
            assert_eq!(out, vec![1, 1, 0, 0, 0, 0, 2, 7, 8]);
        },
        _ => panic!("a decoded frame must be dispatched and published"),
    }
}

#[test]
fn inbound_terminal_events() {
    let (mut engine, mut painting) = canvas_pair();
    assert!(matches!(handle_inbound(&mut engine, &mut painting, InboundEvent::Control),
        InboundDecision::Ignore));
    assert!(matches!(handle_inbound(&mut engine, &mut painting, InboundEvent::Closed),
        InboundDecision::Terminate(SocketError::ConnectionClosed)));
    assert!(matches!(handle_inbound(&mut engine, &mut painting, InboundEvent::Failed),
        InboundDecision::Terminate(SocketError::ReceiveError)));
    assert!(matches!(handle_inbound(&mut engine, &mut painting, InboundEvent::TimedOut),
        InboundDecision::Terminate(SocketError::Timeout)));
}

#[test]
fn lag_tracker_tears_down_after_threshold() {
    let mut t = LagTracker::new(5);
    for _ in 0..4 {
        assert!(!t.on_lag());
    }
    assert!(t.on_lag());

    // A delivered message resets the consecutive count.
    let mut t = LagTracker::new(5);
    assert!(!t.on_lag());
    assert!(!t.on_lag());
    t.on_message();
    assert!(!t.on_lag());
    assert!(!t.on_lag());
    assert!(!t.on_lag());
    assert!(!t.on_lag());
    assert!(t.on_lag());
}

#[test]
fn connection_lifecycle_cancels_sibling_once() {
    let mut c = ConnectionLifecycle::new();
    assert_eq!(c.state, ConnectionState::Connecting);
    c.activate();
    assert_eq!(c.state, ConnectionState::Active);
    // The first task to end asks for its sibling to be cancelled.
    assert!(c.task_ended(true));
    assert_eq!(c.state, ConnectionState::Closing);
    // The second does not; the connection is fully terminated.
    assert!(!c.task_ended(false));
    assert_eq!(c.state, ConnectionState::Terminated);
}
