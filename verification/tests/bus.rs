use meev::mqtt::{
    bus_step, classify_topic, messages_topic, presence_topic, read_topic, typing_topic,
    url_host, url_port, BusAction, BusEvent, TopicKind,
};

const ID: u128 = 0x67e5504410b1426f9247bb680e5fe0c8;

#[test]
fn broker_host_and_port() {
    assert_eq!(url_host("tcp://localhost:1883"), "localhost");
    assert_eq!(url_port("tcp://localhost:1884"), 1884);
    assert_eq!(url_host("mqtt://broker.example"), "broker.example");
    assert_eq!(url_port("mqtt://broker.example"), 1883);
    assert_eq!(url_port("ssl://broker.example"), 8883);
    assert_eq!(url_port("ssl://broker.example:9000/x"), 9000);
    assert_eq!(url_port("tcp://h:notaport"), 1883);
    assert_eq!(url_port("tcp://h:70000"), 1883);
}

#[test]
fn mqtts_scheme_is_not_stripped() {
    // only mqtt://, tcp:// and ssl:// are recognised as schemes
    assert_eq!(url_host("mqtts://broker:8884"), "mqtts");
    assert_eq!(url_port("mqtts://broker"), 8883);
    assert_eq!(url_port("mqtts://broker:8884"), 8883);
}

#[test]
fn topic_names() {
    assert_eq!(messages_topic(ID), "meev/67e55044-10b1-426f-9247-bb680e5fe0c8/messages");
    assert_eq!(typing_topic(ID), "meev/67e55044-10b1-426f-9247-bb680e5fe0c8/typing");
    assert_eq!(read_topic(ID), "meev/67e55044-10b1-426f-9247-bb680e5fe0c8/read");
    assert_eq!(presence_topic(ID), "meev/presence/67e55044-10b1-426f-9247-bb680e5fe0c8");
}

#[test]
fn incoming_topics_are_classified() {
    assert_eq!(classify_topic("meev/abc/messages"), Some(TopicKind::Messages));
    assert_eq!(classify_topic("meev/abc/typing"), Some(TopicKind::Typing));
    assert_eq!(classify_topic("meev/presence/abc"), Some(TopicKind::Presence));
    assert_eq!(classify_topic("meev/abc/read"), None);
    assert_eq!(classify_topic("meev/abc/messages/x"), None);
    assert_eq!(classify_topic("meev/messages"), None);
    assert_eq!(classify_topic("meev/presence/messages"), Some(TopicKind::Presence));
    assert_eq!(classify_topic("meev/typing/abc"), None);
}

#[test]
fn event_loop_decisions() {
    assert_eq!(bus_step(false, BusEvent::ConnAck), (true, BusAction::Subscribe));
    assert_eq!(bus_step(true, BusEvent::Publish), (true, BusAction::Dispatch));
    assert_eq!(bus_step(true, BusEvent::Outgoing), (true, BusAction::Ignore));
    assert_eq!(bus_step(false, BusEvent::OtherIncoming), (false, BusAction::Ignore));
    assert_eq!(bus_step(true, BusEvent::Failure), (false, BusAction::Backoff { warn: true }));
    assert_eq!(bus_step(false, BusEvent::Failure), (false, BusAction::Backoff { warn: false }));
}
