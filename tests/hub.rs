use futures::channel::mpsc::{unbounded, UnboundedReceiver};
use ntex::util::Bytes;
use ntrft::event::{Event, EventHandler, EventMessage};

const EXPECTED: &str = "event: Test name\ndata: {\"hello\":\"test\\ngg\\n\"}\n";

fn test_message() -> EventMessage {
    let mut map = serde_json::Map::new();
    map.insert(
        "hello".to_string(),
        serde_json::Value::String("test\ngg\n".to_string()),
    );
    EventMessage {
        name: "Test name".to_string(),
        data: serde_json::Value::Object(map),
    }
}

fn subscribe(hub: &mut EventHandler) -> (usize, UnboundedReceiver<Bytes>) {
    let (tx, rx) = unbounded::<Bytes>();
    let id = hub.add_client(tx).expect("identity available");
    (id, rx)
}

fn frames(rx: &mut UnboundedReceiver<Bytes>) -> Vec<String> {
    let mut out = Vec::new();
    while let Ok(b) = rx.try_recv() {
        out.push(String::from_utf8(b.to_vec()).unwrap());
    }
    out
}

#[test]
fn single_subscriber_receives_exact_frame() {
    let mut hub = EventHandler::new();
    let (_id, mut rx) = subscribe(&mut hub);
    let report = hub.emit_message(&test_message()).expect("payload encodes");
    assert_eq!(report.attempted.len(), 1);
    assert!(report.dropped.is_empty());
    assert_eq!(frames(&mut rx), vec![EXPECTED.to_string()]);
}

#[test]
fn two_subscribers_receive_identical_frames() {
    let mut hub = EventHandler::new();
    let (_a, mut rx_a) = subscribe(&mut hub);
    let (_b, mut rx_b) = subscribe(&mut hub);
    hub.emit_message(&test_message()).unwrap();
    let fa = frames(&mut rx_a);
    let fb = frames(&mut rx_b);
    assert_eq!(fa.len(), 1);
    assert_eq!(fa, fb);
    assert_eq!(fa[0], EXPECTED);
}

#[test]
fn every_subscriber_receives_exactly_one_copy() {
    for n in 0..6usize {
        let mut hub = EventHandler::new();
        let mut rxs = Vec::new();
        for _ in 0..n {
            rxs.push(subscribe(&mut hub).1);
        }
        let report = hub.emit_message(&test_message()).unwrap();
        assert_eq!(report.attempted.len(), n);
        for rx in rxs.iter_mut() {
            assert_eq!(frames(rx), vec![EXPECTED.to_string()]);
        }
    }
}

#[test]
fn publish_without_subscribers_is_quiet() {
    let mut hub = EventHandler::new();
    let report = hub.emit_message(&test_message()).unwrap();
    assert!(report.attempted.is_empty());
    assert!(report.dropped.is_empty());
    assert_eq!(hub.client_count(), 0);
}

#[test]
fn failed_subscriber_is_pruned_before_next_publish() {
    let mut hub = EventHandler::new();
    let (gone, rx_gone) = subscribe(&mut hub);
    let (kept, mut rx_kept) = subscribe(&mut hub);
    drop(rx_gone);
    let first = hub.emit_message(&test_message()).unwrap();
    assert_eq!(first.attempted.len(), 2);
    let dropped: Vec<usize> = first.dropped.iter().map(|c| c.id).collect();
    assert_eq!(dropped, vec![gone]);
    for (id, ok) in first.attempted.iter().zip(first.delivered.iter()) {
        assert_eq!(*ok, *id == kept);
    }
    assert!(!hub.is_registered(gone));
    assert!(hub.is_registered(kept));
    let second = hub.emit_message(&test_message()).unwrap();
    assert_eq!(second.attempted, vec![kept]);
    assert_eq!(second.delivered, vec![true]);
    assert!(second.dropped.is_empty());
    assert_eq!(frames(&mut rx_kept).len(), 2);
}

#[test]
fn commands_are_processed_in_order() {
    let mut hub = EventHandler::new();
    let mut early = Vec::new();
    for _ in 0..3 {
        let (tx, rx) = unbounded::<Bytes>();
        assert!(hub.handle_events(Event::AddClient(tx)).is_none());
        early.push(rx);
    }
    assert_eq!(hub.handle_events(Event::Emit(test_message())).unwrap().attempted.len(), 3);
    let (tx, mut late) = unbounded::<Bytes>();
    hub.handle_events(Event::AddClient(tx));
    assert_eq!(hub.handle_events(Event::Emit(test_message())).unwrap().attempted.len(), 4);
    for rx in early.iter_mut() {
        assert_eq!(frames(rx).len(), 2);
    }
    assert_eq!(frames(&mut late), vec![EXPECTED.to_string()]);
}

#[test]
fn identities_are_never_reused() {
    let mut hub = EventHandler::new();
    let (a, _rx_a) = subscribe(&mut hub);
    let (b, _rx_b) = subscribe(&mut hub);
    assert_eq!((a, b), (1, 2));
    hub.remove_client(a);
    hub.remove_client(a);
    assert_eq!(hub.client_count(), 1);
    let (c, _rx_c) = subscribe(&mut hub);
    assert_eq!(c, 3);
    assert!(hub.is_registered(b) && hub.is_registered(c));
    let mut ids = hub.snapshot();
    ids.sort();
    assert_eq!(ids, vec![2, 3]);
}

#[test]
fn serialized_message_decodes_to_name_and_payload() {
    let message = test_message();
    let frame = EventHandler::serialize_message(&message).unwrap();
    assert_eq!(frame, EXPECTED);
    let (name, data) = ntrft::frame::decode_frame(&frame).unwrap();
    assert_eq!(name, "Test name");
    let parsed: serde_json::Value = serde_json::from_str(&data).unwrap();
    assert_eq!(parsed, message.data);
    assert_eq!(parsed["hello"], "test\ngg\n");
}

#[test]
fn closed_channel_is_pruned_at_next_publish_and_left_out_after() {
    let mut hub = EventHandler::new();
    let (failing, mut rx_failing) = subscribe(&mut hub);
    let (open, mut rx_open) = subscribe(&mut hub);
    let first = hub.emit_message(&test_message()).unwrap();
    assert_eq!(first.delivered, vec![true, true]);
    assert_eq!(frames(&mut rx_failing).len(), 1);
    // The relay closes the channel once its outbound write fails.
    rx_failing.close();
    let second = hub.emit_message(&test_message()).unwrap();
    assert_eq!(second.attempted.len(), 2);
    let dropped: Vec<usize> = second.dropped.iter().map(|c| c.id).collect();
    assert_eq!(dropped, vec![failing]);
    assert!(!hub.is_registered(failing));
    let third = hub.emit_message(&test_message()).unwrap();
    assert_eq!(third.attempted, vec![open]);
    assert_eq!(frames(&mut rx_open).len(), 3);
}

#[test]
fn frames_of_two_publishes_arrive_in_order() {
    let mut hub = EventHandler::new();
    let (_id, mut rx) = subscribe(&mut hub);
    let second = EventMessage {
        name: "other".to_string(),
        data: serde_json::Value::Bool(true),
    };
    hub.emit_message(&test_message()).unwrap();
    hub.emit_message(&second).unwrap();
    assert_eq!(
        frames(&mut rx),
        vec![EXPECTED.to_string(), "event: other\ndata: true\n".to_string()]
    );
}

#[test]
fn registering_writes_nothing() {
    let mut hub = EventHandler::new();
    let (_a, mut rx_a) = subscribe(&mut hub);
    let (_b, _rx_b) = subscribe(&mut hub);
    assert!(frames(&mut rx_a).is_empty());
    assert_eq!(hub.client_count(), 2);
}
