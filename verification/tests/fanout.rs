use std::sync::Arc;

use futures::channel::mpsc::unbounded;

use event_fanout::channel::ChannelNext;
use event_fanout::decode::{CustomDecoder, DecodeError};
use event_fanout::events::{EventData, EventHandle, EventRecord, RawValue};
use event_fanout::stream::{classify, EventStream, StreamStep};
use event_fanout::subscribe::{EventKind, SubscriptionRequest, Subscriptions};

const ANIMATION_TAG: u64 = 1;
const CUSTOM_TAG: u64 = 9;

fn animation_canceled(id: &str) -> RawValue {
    RawValue::Object(vec![("id".to_string(), RawValue::Text(id.to_string()))])
}

fn named_object(name: &str) -> RawValue {
    RawValue::Object(vec![("name".to_string(), RawValue::Text(name.to_string()))])
}

fn name_decoder() -> CustomDecoder {
    CustomDecoder::new(CUSTOM_TAG, vec!["name".to_string()])
}

fn expect_item(step: StreamStep) -> EventHandle {
    match step {
        StreamStep::Item(h) => h,
        StreamStep::Ended => panic!("stream ended early"),
        StreamStep::Pending => panic!("stream had nothing ready"),
        StreamStep::Discarded => panic!("stream discarded an event"),
    }
}

fn expect_pending(step: StreamStep) {
    assert!(matches!(step, StreamStep::Pending));
}

#[test]
fn event_stream() {
    let (tx, rx) = unbounded();
    let mut stream = EventStream::new(rx, ANIMATION_TAG);

    let event = EventRecord { id: 0, type_tag: ANIMATION_TAG, payload: animation_canceled("id") };
    let msg: EventHandle = Arc::new(EventRecord {
        id: 0,
        type_tag: ANIMATION_TAG,
        payload: animation_canceled("id"),
    });
    tx.unbounded_send(msg).unwrap();
    let next = expect_item(stream.next_event(16));
    assert_eq!(&*next, &event);
}

#[test]
fn custom_event_stream() {
    let mut subs = Subscriptions::new();
    let (tx, rx) = unbounded();
    subs.add_listener(SubscriptionRequest::new(
        tx,
        "Custom.Event".to_string(),
        EventKind::Custom(name_decoder()),
    ));
    let mut stream = EventStream::new(rx, CUSTOM_TAG);

    subs.try_send_custom(&"Custom.Event".to_string(), named_object("my event")).unwrap();
    subs.poll();

    let next = expect_item(stream.next_event(16));
    assert_eq!(next.payload, named_object("my event"));
    assert_eq!(next.type_tag, CUSTOM_TAG);
}

#[test]
fn fifo_order_across_drains() {
    let mut subs = Subscriptions::new();
    let (tx, rx) = unbounded();
    subs.add_listener(SubscriptionRequest::new(tx, "Foo".to_string(), EventKind::Native));
    let mut stream = EventStream::new(rx, ANIMATION_TAG);

    let key = "Foo".to_string();
    subs.start_send(&key, EventData { type_tag: ANIMATION_TAG, payload: animation_canceled("a") });
    subs.start_send(&key, EventData { type_tag: ANIMATION_TAG, payload: animation_canceled("b") });
    // nothing arrives before a drain pass
    expect_pending(stream.next_event(16));
    subs.poll();
    subs.start_send(&key, EventData { type_tag: ANIMATION_TAG, payload: animation_canceled("c") });
    subs.poll();

    let first = expect_item(stream.next_event(16));
    assert_eq!(first.payload, animation_canceled("a"));
    let second = expect_item(stream.next_event(16));
    assert_eq!(second.payload, animation_canceled("b"));
    let third = expect_item(stream.next_event(16));
    assert_eq!(third.payload, animation_canceled("c"));
    expect_pending(stream.next_event(16));
}

#[test]
fn native_two_keys() {
    let mut subs = Subscriptions::new();
    let (tx_a, rx_a) = unbounded();
    let (tx_b, rx_b) = unbounded();
    subs.add_listener(SubscriptionRequest::new(tx_a, "Foo".to_string(), EventKind::Native));
    subs.add_listener(SubscriptionRequest::new(tx_b, "Bar".to_string(), EventKind::Native));
    let mut a = EventStream::new(rx_a, ANIMATION_TAG);
    let mut b = EventStream::new(rx_b, ANIMATION_TAG);

    subs.start_send(
        &"Foo".to_string(),
        EventData { type_tag: ANIMATION_TAG, payload: animation_canceled("e1") },
    );
    subs.poll();

    let got = expect_item(a.next_event(16));
    assert_eq!(got.payload, animation_canceled("e1"));
    expect_pending(a.next_event(16));
    expect_pending(b.next_event(16));
}

#[test]
fn custom_shared_decode() {
    let mut subs = Subscriptions::new();
    let (tx1, rx1) = unbounded();
    let (tx2, rx2) = unbounded();
    let key = "Custom.Event".to_string();
    subs.add_listener(SubscriptionRequest::new(
        tx1,
        key.clone(),
        EventKind::Custom(name_decoder()),
    ));
    subs.add_listener(SubscriptionRequest::new(
        tx2,
        key.clone(),
        EventKind::Custom(name_decoder()),
    ));
    let mut c1 = EventStream::new(rx1, CUSTOM_TAG);
    let mut c2 = EventStream::new(rx2, CUSTOM_TAG);

    subs.try_send_custom(&key, named_object("x")).unwrap();
    subs.poll();

    let e1 = expect_item(c1.next_event(16));
    let e2 = expect_item(c2.next_event(16));
    // the identical decoded instance: same identity, same value, shared
    assert_eq!(e1.id, e2.id);
    assert_eq!(&*e1, &*e2);
    assert_eq!(e1.payload, named_object("x"));
}

#[test]
fn native_sub_ignores_custom_dispatch() {
    let mut subs = Subscriptions::new();
    let (tx_n, rx_n) = unbounded();
    let (tx_c, rx_c) = unbounded();
    let key = "K".to_string();
    subs.add_listener(SubscriptionRequest::new(tx_n, key.clone(), EventKind::Native));
    subs.add_listener(SubscriptionRequest::new(
        tx_c,
        key.clone(),
        EventKind::Custom(name_decoder()),
    ));
    let mut native = EventStream::new(rx_n, CUSTOM_TAG);
    let mut custom = EventStream::new(rx_c, CUSTOM_TAG);

    subs.try_send_custom(&key, named_object("x")).unwrap();
    subs.poll();

    expect_pending(native.next_event(16));
    let got = expect_item(custom.next_event(16));
    assert_eq!(got.payload, named_object("x"));
}

#[test]
fn decode_failure_delivers_nothing() {
    let mut subs = Subscriptions::new();
    let (tx1, rx1) = unbounded();
    let (tx2, rx2) = unbounded();
    let key = "Custom.Event".to_string();
    subs.add_listener(SubscriptionRequest::new(
        tx1,
        key.clone(),
        EventKind::Custom(name_decoder()),
    ));
    subs.add_listener(SubscriptionRequest::new(tx2, key.clone(), EventKind::Native));
    let mut c1 = EventStream::new(rx1, CUSTOM_TAG);
    let mut n = EventStream::new(rx2, CUSTOM_TAG);

    // an object lacking the required field: the first missing field comes back
    let bad = RawValue::Object(vec![("other".to_string(), RawValue::Int(1))]);
    let err = subs.try_send_custom(&key, bad).unwrap_err();
    assert_eq!(err, DecodeError::MissingField("name".to_string()));

    // not an object at all
    let err = subs.try_send_custom(&key, RawValue::Int(3)).unwrap_err();
    assert_eq!(err, DecodeError::NotAnObject);

    subs.poll();
    expect_pending(c1.next_event(16));
    expect_pending(n.next_event(16));
}

#[test]
fn dropped_listener_removed() {
    let mut subs = Subscriptions::new();
    let (tx, rx) = unbounded();
    let key = "K".to_string();
    subs.add_listener(SubscriptionRequest::new(tx, key.clone(), EventKind::Native));
    assert_eq!(subs.subscriber_count(&key), 1);

    // the consumer goes away; the sentinel channel would refuse a send
    drop(rx);

    subs.start_send(&key, EventData { type_tag: ANIMATION_TAG, payload: animation_canceled("e") });
    subs.poll();
    assert_eq!(subs.subscriber_count(&key), 0);

    // a subsequent dispatch and drain cycle touches no subscription
    subs.start_send(&key, EventData { type_tag: ANIMATION_TAG, payload: animation_canceled("f") });
    subs.poll();
    assert_eq!(subs.subscriber_count(&key), 0);
}

#[test]
fn dispatch_without_subscribers_is_harmless() {
    let mut subs = Subscriptions::new();
    subs.start_send(
        &"Nobody".to_string(),
        EventData { type_tag: ANIMATION_TAG, payload: RawValue::Null },
    );
    assert!(subs.try_send_custom(&"Nobody".to_string(), RawValue::Int(1)).is_ok());
    subs.poll();
    assert_eq!(subs.subscriber_count(&"Nobody".to_string()), 0);
}

#[test]
fn custom_dispatch_without_custom_subscriber_skips_decode() {
    let mut subs = Subscriptions::new();
    let (tx, rx) = unbounded();
    let key = "K".to_string();
    subs.add_listener(SubscriptionRequest::new(tx, key.clone(), EventKind::Native));
    let mut n = EventStream::new(rx, CUSTOM_TAG);

    // even an undecodable payload is accepted: no decoder runs
    assert!(subs.try_send_custom(&key, RawValue::Int(1)).is_ok());
    subs.poll();
    expect_pending(n.next_event(16));
}

#[test]
fn mismatched_type_is_discarded_and_pull_continues() {
    let (tx, rx) = unbounded();
    let mut stream = EventStream::new(rx, CUSTOM_TAG);

    let other: EventHandle =
        Arc::new(EventRecord { id: 1, type_tag: ANIMATION_TAG, payload: RawValue::Null });
    let wanted: EventHandle =
        Arc::new(EventRecord { id: 2, type_tag: CUSTOM_TAG, payload: named_object("x") });
    tx.unbounded_send(other).unwrap();
    tx.unbounded_send(wanted).unwrap();

    assert!(matches!(stream.poll_next(), StreamStep::Discarded));
    let got = expect_item(stream.poll_next());
    assert_eq!(got.id, 2);

    // one bounded call skips the mismatch on its own
    let other2: EventHandle =
        Arc::new(EventRecord { id: 3, type_tag: ANIMATION_TAG, payload: RawValue::Null });
    let wanted2: EventHandle =
        Arc::new(EventRecord { id: 4, type_tag: CUSTOM_TAG, payload: named_object("y") });
    tx.unbounded_send(other2).unwrap();
    tx.unbounded_send(wanted2).unwrap();
    let got = expect_item(stream.next_event(16));
    assert_eq!(got.id, 4);
}

#[test]
fn stream_ends_when_producer_is_gone() {
    let (tx, rx) = unbounded();
    let mut stream = EventStream::new(rx, CUSTOM_TAG);
    let wanted: EventHandle =
        Arc::new(EventRecord { id: 5, type_tag: CUSTOM_TAG, payload: RawValue::Null });
    tx.unbounded_send(wanted).unwrap();
    drop(tx);

    let got = expect_item(stream.next_event(16));
    assert_eq!(got.id, 5);
    assert!(matches!(stream.next_event(16), StreamStep::Ended));
}

#[test]
fn decoder_check_formula() {
    let d = CustomDecoder::new(
        7,
        vec!["a".to_string(), "b".to_string()],
    );
    assert!(d.check(&RawValue::Object(vec![
        ("a".to_string(), RawValue::Int(1)),
        ("b".to_string(), RawValue::Null),
    ]))
        .is_ok());
    // the first missing required field is reported
    assert_eq!(
        d.check(&RawValue::Object(vec![("b".to_string(), RawValue::Null)])),
        Err(DecodeError::MissingField("a".to_string()))
    );
    assert_eq!(d.check(&RawValue::Text("a".to_string())), Err(DecodeError::NotAnObject));
}

#[test]
fn classify_each_step() {
    let matching: EventHandle =
        Arc::new(EventRecord { id: 1, type_tag: CUSTOM_TAG, payload: RawValue::Null });
    match classify(ChannelNext::Item(matching), CUSTOM_TAG) {
        StreamStep::Item(h) => assert_eq!(h.id, 1),
        _ => panic!("a matching event must be yielded"),
    }
    let other: EventHandle =
        Arc::new(EventRecord { id: 2, type_tag: ANIMATION_TAG, payload: RawValue::Null });
    assert!(matches!(classify(ChannelNext::Item(other), CUSTOM_TAG), StreamStep::Discarded));
    assert!(matches!(classify(ChannelNext::Ended, CUSTOM_TAG), StreamStep::Ended));
    assert!(matches!(classify(ChannelNext::Empty, CUSTOM_TAG), StreamStep::Pending));
}

#[test]
fn exhausted_budget_reports_discarded() {
    let (tx, rx) = unbounded();
    let mut stream = EventStream::new(rx, CUSTOM_TAG);
    for i in 0..3u64 {
        tx.unbounded_send(Arc::new(EventRecord {
            id: i,
            type_tag: ANIMATION_TAG,
            payload: RawValue::Null,
        }))
        .unwrap();
    }
    // fewer attempts than queued mismatches: the budget runs out, and the
    // result says to pull again at once rather than calling the stream idle
    assert!(matches!(stream.next_event(2), StreamStep::Discarded));
    // the remaining mismatch is skipped and the channel is then idle
    assert!(matches!(stream.next_event(16), StreamStep::Pending));
}
