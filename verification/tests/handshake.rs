use rospub::error::{Error, IoErrorKind};
use rospub::header::{decode_header, encode_header, frame_payload, lookup_field};
use rospub::publisher::{
    connection_step, error_header, validate_handshake, ConnectionEvent, ConnectionPhase, Publisher,
};
use rospub::{Message, RawMessageDescription, ServicePair, Topic};

fn bound_topic() -> Topic {
    Topic {
        name: String::from("scan"),
        msg_type: String::from("sensor_msgs/LaserScan"),
        md5sum: String::from("90c7ef2dc6895d81024acba2ac42f369"),
    }
}

fn good_fields() -> Vec<(String, String)> {
    vec![
        (String::from("topic"), String::from("scan")),
        (
            String::from("type"),
            String::from("sensor_msgs/LaserScan"),
        ),
        (
            String::from("md5sum"),
            String::from("90c7ef2dc6895d81024acba2ac42f369"),
        ),
        (String::from("callerid"), String::from("/listener")),
        (String::from("latching"), String::from("1")),
    ]
}

fn test_publisher() -> Publisher {
    Publisher::new(
        "localhost",
        "scan",
        10,
        "/talker",
        RawMessageDescription {
            msg_definition: String::from("ranges etc."),
            msg_type: String::from("sensor_msgs/LaserScan"),
            md5sum: String::from("90c7ef2dc6895d81024acba2ac42f369"),
        },
        40001,
    )
}

#[test]
fn valid_handshake_is_accepted() {
    let info = validate_handshake(&bound_topic(), &good_fields()).unwrap();
    assert_eq!(info.caller_id, "/listener");
    assert!(info.latching);
    assert!(!info.tcp_nodelay);
}

#[test]
fn missing_md5sum_is_rejected() {
    let fields = vec![
        (String::from("topic"), String::from("scan")),
        (
            String::from("type"),
            String::from("sensor_msgs/LaserScan"),
        ),
        (String::from("callerid"), String::from("/listener")),
    ];
    let err = validate_handshake(&bound_topic(), &fields).unwrap_err();
    match err {
        Error::HeaderMissingField(field) => assert_eq!(field, "md5sum"),
        other => panic!("wrong error kind: {:?}", other),
    }
}

#[test]
fn mismatched_md5sum_is_rejected_and_publisher_unaffected() {
    let mut fields = good_fields();
    fields[2].1 = String::from("0000deadbeef0000deadbeef0000dead");
    let mut publisher = test_publisher();
    let err = publisher.accept_subscriber(&fields).unwrap_err();
    match err {
        Error::HeaderMismatch(field, expected, actual) => {
            assert_eq!(field, "md5sum");
            assert_eq!(expected, "90c7ef2dc6895d81024acba2ac42f369");
            assert_eq!(actual, "0000deadbeef0000deadbeef0000dead");
        }
        other => panic!("wrong error kind: {:?}", other),
    }
    assert!(publisher.subscribers.is_empty());
    assert_eq!(publisher.topic.md5sum, "90c7ef2dc6895d81024acba2ac42f369");
}

#[test]
fn accepted_subscriber_joins_set_and_response_echoes_binding() {
    let mut publisher = test_publisher();
    let id = publisher.accept_subscriber(&good_fields()).unwrap();
    assert_eq!(id, 0);
    assert_eq!(publisher.subscribers.len(), 1);
    assert_eq!(publisher.subscribers[0].caller_id, "/listener");
    assert!(publisher.subscribers[0].latching);
    let response = publisher.response_header();
    assert_eq!(
        lookup_field(&response, "md5sum").unwrap().as_str(),
        "90c7ef2dc6895d81024acba2ac42f369"
    );
    assert_eq!(
        lookup_field(&response, "type").unwrap().as_str(),
        "sensor_msgs/LaserScan"
    );
    assert_eq!(lookup_field(&response, "topic").unwrap().as_str(), "scan");
    assert_eq!(lookup_field(&response, "callerid").unwrap().as_str(), "/talker");
}

#[test]
fn error_header_carries_reserved_error_field() {
    let e = Error::HeaderMissingField(String::from("md5sum"));
    let h = error_header(&e);
    assert_eq!(h.len(), 1);
    assert_eq!(h[0].0, "error");
    assert_eq!(h[0].1, "Data field within header missing");
}

#[test]
fn connection_phases_follow_the_protocol() {
    let p = ConnectionPhase::Accepted;
    let p = connection_step(p, ConnectionEvent::TransportReady);
    assert_eq!(p, ConnectionPhase::AwaitingHeader);
    let rejected = connection_step(p, ConnectionEvent::HeaderInvalid);
    assert_eq!(rejected, ConnectionPhase::Rejected);
    let p = connection_step(p, ConnectionEvent::HeaderValid);
    assert_eq!(p, ConnectionPhase::Validated);
    let p = connection_step(p, ConnectionEvent::ResponseSent);
    assert_eq!(p, ConnectionPhase::Streaming);
    let p = connection_step(p, ConnectionEvent::PeerClosed);
    assert_eq!(p, ConnectionPhase::Closed);
    // Terminal phases absorb every event.
    assert_eq!(
        connection_step(rejected, ConnectionEvent::TransportReady),
        ConnectionPhase::Rejected
    );
    assert_eq!(
        connection_step(p, ConnectionEvent::IoFailure),
        ConnectionPhase::Closed
    );
}

#[test]
fn header_round_trips_on_the_wire() {
    let fields = good_fields();
    let bytes = encode_header(&fields);
    let decoded = decode_header(&bytes).unwrap();
    assert_eq!(decoded, fields);
}

#[test]
fn header_wire_bytes_are_length_prefixed() {
    let fields = vec![(String::from("a"), String::from("b"))];
    let bytes = encode_header(&fields);
    // body: one field "a=b" of 3 bytes behind its 4-byte prefix.
    assert_eq!(
        bytes,
        vec![7, 0, 0, 0, 3, 0, 0, 0, b'a', b'=', b'b']
    );
}

#[test]
fn truncated_header_is_a_transport_error() {
    let fields = good_fields();
    let mut bytes = encode_header(&fields);
    bytes.pop();
    let err = decode_header(&bytes).unwrap_err();
    assert_eq!(err, Error::Io(IoErrorKind::UnexpectedEof));
    assert!(!err.is_closed_connection());
}

#[test]
fn frame_prefixes_payload_with_its_length() {
    let payload = vec![1u8, 2, 3];
    assert_eq!(frame_payload(&payload), vec![3, 0, 0, 0, 1, 2, 3]);
}

#[derive(Clone, Debug, Default, PartialEq)]
struct CountMsg {
    value: u64,
}

impl Message for CountMsg {
    fn msg_definition() -> String {
        String::from("uint64 value")
    }

    fn md5sum() -> String {
        String::from("aaaabbbbccccddddaaaabbbbccccdddd")
    }

    fn msg_type() -> String {
        String::from("demo_msgs/Count")
    }
}

impl ServicePair for CountMsg {
    type Request = CountMsg;
    type Response = CountMsg;
}

#[test]
fn message_metadata_is_plain_data() {
    assert_eq!(CountMsg::msg_type(), "demo_msgs/Count");
    assert_eq!(CountMsg::md5sum(), "aaaabbbbccccddddaaaabbbbccccdddd");
    assert_eq!(CountMsg::msg_definition(), "uint64 value");
}
