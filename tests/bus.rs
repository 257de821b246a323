use markdown_preview::bus::{ChangeBus, SseEvent};

fn added(p: &str) -> SseEvent {
    SseEvent::FileAdded(p.to_string())
}

#[test]
fn lagging_subscriber_keeps_latest_two() {
    let mut bus = ChangeBus::new(2);
    let id = bus.subscribe();
    for p in ["1.md", "2.md", "3.md", "4.md", "5.md"] {
        bus.publish(added(p));
    }
    assert_eq!(bus.recv(id), Some(added("4.md")));
    assert_eq!(bus.recv(id), Some(added("5.md")));
    assert_eq!(bus.recv(id), None);
}

#[test]
fn publish_without_subscribers_returns() {
    let mut bus = ChangeBus::new(64);
    bus.publish(SseEvent::FileRemoved("gone.md".to_string()));
    assert_eq!(bus.capacity(), 64);
}

#[test]
fn late_subscriber_sees_no_history() {
    let mut bus = ChangeBus::new(4);
    let early = bus.subscribe();
    bus.publish(added("old.md"));
    let late = bus.subscribe();
    bus.publish(added("new.md"));
    assert_eq!(bus.recv(late), Some(added("new.md")));
    assert_eq!(bus.recv(late), None);
    assert_eq!(bus.recv(early), Some(added("old.md")));
    assert_eq!(bus.recv(early), Some(added("new.md")));
}

#[test]
fn subscribers_are_independent() {
    let mut bus = ChangeBus::new(1);
    let a = bus.subscribe();
    let b = bus.subscribe();
    bus.publish(added("x.md"));
    assert_eq!(bus.recv(a), Some(added("x.md")));
    bus.publish(added("y.md"));
    assert_eq!(bus.recv(b), Some(added("y.md")));
    assert_eq!(bus.recv(a), Some(added("y.md")));
}

#[test]
fn closed_subscriber_receives_nothing() {
    let mut bus = ChangeBus::new(3);
    let id = bus.subscribe();
    bus.publish(added("a.md"));
    bus.unsubscribe(id);
    bus.publish(added("b.md"));
    assert_eq!(bus.recv(id), None);
    assert_eq!(bus.recv(id + 7), None);
}

#[test]
fn event_accessors() {
    let e = SseEvent::FileChanged("test.md".to_string());
    assert_eq!(e.kind_name(), "FileChanged");
    assert_eq!(e.path(), "test.md");
    assert_eq!(SseEvent::FileAdded("a".into()).kind_name(), "FileAdded");
    assert_eq!(SseEvent::FileRemoved("a".into()).kind_name(), "FileRemoved");
    assert_eq!(e.duplicate(), e);
}

#[test]
fn subscriber_count_counts_closed_ones() {
    let mut bus = ChangeBus::new(2);
    assert_eq!(bus.subscriber_count(), 0);
    let a = bus.subscribe();
    bus.subscribe();
    bus.unsubscribe(a);
    assert_eq!(bus.subscriber_count(), 2);
}

#[test]
fn closed_slot_is_reused() {
    let mut bus = ChangeBus::new(2);
    let a = bus.subscribe();
    let b = bus.subscribe();
    bus.publish(added("old.md"));
    bus.unsubscribe(a);
    let c = bus.subscribe();
    assert_eq!(c, a);
    assert_eq!(bus.subscriber_count(), 2);
    assert_eq!(bus.recv(c), None);
    bus.publish(added("new.md"));
    assert_eq!(bus.recv(c), Some(added("new.md")));
    assert_eq!(bus.recv(b), Some(added("old.md")));
    let d = bus.subscribe();
    assert_eq!(d, 2);
}
