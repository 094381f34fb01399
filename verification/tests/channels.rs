//! The subscription registry.

use std::sync::mpsc::{channel, Receiver};
use steller::domain::channels::{Channels, ChannelsError, Subscriber};

/// Register a fresh subscriber on `channel_id` and hand back the receiver end so the
/// test can assert what got delivered.
fn subscribe(channels: &mut Channels, id: u32, channel_id: &[u8]) -> Receiver<Vec<u8>> {
    let (tx, rx) = channel::<Vec<u8>>();
    channels
        .subscribe(channel_id.to_vec(), Subscriber::new(id, tx))
        .unwrap();
    rx
}

#[test]
fn subscribe_then_publish_delivers_payload() {
    let mut channels = Channels::new();
    let rx = subscribe(&mut channels, 1, b"foo");
    let reached = channels.publish(b"hello".to_vec(), b"foo").unwrap();
    assert_eq!(reached, 1);
    assert_eq!(rx.recv().unwrap(), b"hello".to_vec());
}

#[test]
fn publish_to_unknown_channel_reaches_zero() {
    let mut channels = Channels::new();
    assert_eq!(channels.publish(b"hello".to_vec(), b"nope").unwrap(), 0);
}

#[test]
fn publish_only_reaches_subscribers_of_that_channel() {
    let mut channels = Channels::new();
    let foo_rx = subscribe(&mut channels, 1, b"foo");
    let _bar_rx = subscribe(&mut channels, 2, b"bar");
    assert_eq!(channels.publish(b"hi".to_vec(), b"foo").unwrap(), 1);
    assert_eq!(foo_rx.recv().unwrap(), b"hi".to_vec());
}

#[test]
fn multiple_subscribers_all_receive_and_count() {
    let mut channels = Channels::new();
    let rx1 = subscribe(&mut channels, 1, b"foo");
    let rx2 = subscribe(&mut channels, 2, b"foo");
    assert_eq!(channels.publish(b"yo".to_vec(), b"foo").unwrap(), 2);
    assert_eq!(rx1.recv().unwrap(), b"yo".to_vec());
    assert_eq!(rx2.recv().unwrap(), b"yo".to_vec());
}

#[test]
fn unsubscribe_stops_delivery() {
    let mut channels = Channels::new();
    let rx = subscribe(&mut channels, 1, b"foo");
    channels.unsubscribe(b"foo", 1).unwrap();
    assert_eq!(channels.publish(b"hi".to_vec(), b"foo").unwrap(), 0);
    // The sender end is gone from the registry, so nothing was delivered.
    assert!(rx.try_recv().is_err());
}

#[test]
fn resubscribe_same_id_is_idempotent() {
    // Re-subscribing the same session id to the same channel must not double-count.
    let mut channels = Channels::new();
    let (tx, rx) = channel::<Vec<u8>>();
    channels
        .subscribe(b"foo".to_vec(), Subscriber::new(1, tx.clone()))
        .unwrap();
    channels
        .subscribe(b"foo".to_vec(), Subscriber::new(1, tx))
        .unwrap();
    assert_eq!(channels.publish(b"hi".to_vec(), b"foo").unwrap(), 1);
    assert_eq!(rx.recv().unwrap(), b"hi".to_vec());
}

#[test]
fn publish_prunes_dead_subscribers() {
    let mut channels = Channels::new();
    let live_rx = subscribe(&mut channels, 1, b"foo");
    let dead_rx = subscribe(&mut channels, 2, b"foo");
    drop(dead_rx); // session 2's receiver is gone

    // First publish sees the dead sender, delivers to the live one, prunes the dead.
    assert_eq!(channels.publish(b"one".to_vec(), b"foo").unwrap(), 1);
    assert_eq!(live_rx.recv().unwrap(), b"one".to_vec());

    // Second publish: dead sender already pruned, count stays at 1.
    assert_eq!(channels.publish(b"two".to_vec(), b"foo").unwrap(), 1);
    assert_eq!(live_rx.recv().unwrap(), b"two".to_vec());
}

#[test]
fn unsubscribe_unknown_channel_is_noop() {
    let mut channels = Channels::new();
    assert!(channels.unsubscribe(b"ghost", 1).is_ok());
}

// ---------- handing out, and what comes of it ----------

#[test]
fn everyone_on_a_channel_is_handed_the_message_once() {
    let mut channels = Channels::new();
    let rx1 = subscribe(&mut channels, 1, b"foo");
    let _old = subscribe(&mut channels, 2, b"foo");
    let rx3 = subscribe(&mut channels, 3, b"bar");
    let rx2 = subscribe(&mut channels, 2, b"foo");
    let mut reached = channels.hand_out(b"hello", b"foo");
    reached.sort();
    assert_eq!(reached, vec![1, 2]);
    for rx in [rx1, rx2] {
        assert_eq!(rx.try_recv().unwrap(), b"hello".to_vec());
        assert!(rx.try_recv().is_err());
    }
    assert!(rx3.try_recv().is_err());
    assert_eq!(channels.hand_out(b"hello", b"bar"), vec![3]);
    assert!(channels.hand_out(b"hello", b"nope").is_empty());
}

#[test]
fn handing_out_drops_nobody() {
    let mut channels = Channels::new();
    let dead = subscribe(&mut channels, 1, b"foo");
    drop(dead);
    assert!(channels.hand_out(b"hello", b"foo").is_empty());
    assert_eq!(channels.len(), 1);
    assert_eq!(channels.settle(b"foo", &vec![]), 0);
    assert_eq!(channels.len(), 0);
}

#[test]
fn whoever_was_not_reached_is_dropped() {
    let mut channels = Channels::new();
    let _rx1 = subscribe(&mut channels, 1, b"foo");
    let _rx2 = subscribe(&mut channels, 2, b"foo");
    let _rx3 = subscribe(&mut channels, 3, b"bar");
    // 7 listens nowhere, and does not count.
    assert_eq!(channels.settle(b"foo", &vec![2, 7]), 1);
    assert_eq!(channels.hand_out(b"x", b"foo"), vec![2]);
    assert_eq!(channels.hand_out(b"x", b"bar"), vec![3]);
    assert_eq!(channels.settle(b"foo", &vec![]), 0);
    assert_eq!(channels.len(), 1);
}

#[test]
fn reaching_everyone_drops_nobody() {
    let mut channels = Channels::new();
    let _rx1 = subscribe(&mut channels, 1, b"foo");
    let _rx2 = subscribe(&mut channels, 2, b"foo");
    assert_eq!(channels.settle(b"foo", &vec![1, 2]), 2);
    assert_eq!(channels.hand_out(b"x", b"foo").len(), 2);
}

#[test]
fn leaving_undoes_joining() {
    let mut channels = Channels::new();
    let _rx1 = subscribe(&mut channels, 1, b"foo");
    let _rx2 = subscribe(&mut channels, 2, b"foo");
    channels.unsubscribe(b"foo", 2).unwrap();
    assert_eq!(channels.hand_out(b"x", b"foo"), vec![1]);
    channels.unsubscribe(b"foo", 2).unwrap();
    assert_eq!(channels.hand_out(b"x", b"foo"), vec![1]);
    channels.unsubscribe(b"foo", 1).unwrap();
    assert_eq!(channels.len(), 0);
}

// Messages come out in the order they were published, each once.
#[test]
fn published_messages_keep_their_order() {
    let mut channels = Channels::new();
    let rx = subscribe(&mut channels, 1, b"foo");
    for i in 0..50u8 {
        assert_eq!(channels.publish(vec![i], b"foo").unwrap(), 1);
    }
    for i in 0..50u8 {
        assert_eq!(rx.try_recv().unwrap(), vec![i]);
    }
    assert!(rx.try_recv().is_err());
}

#[test]
fn a_message_that_cannot_be_sent_comes_back() {
    let (tx, rx) = channel::<Vec<u8>>();
    let mut subscriber = Subscriber::new(1, tx);
    subscriber.send(b"one".to_vec()).unwrap();
    assert_eq!(rx.recv().unwrap(), b"one".to_vec());
    drop(rx);
    assert_eq!(subscriber.send(b"two".to_vec()).unwrap_err().0, b"two".to_vec());
}

#[test]
fn a_dead_registry_is_described() {
    assert_eq!(
        ChannelsError::MutexPoisoned.message(),
        b"mutex was poisoned".to_vec()
    );
}
