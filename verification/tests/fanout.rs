use rospub::error::{is_closed_connection, Error, IoErrorKind};
use rospub::publisher::{Publisher, WriteDisposition};
use rospub::RawMessageDescription;

fn subscriber_fields(caller: &str) -> Vec<(String, String)> {
    vec![
        (String::from("topic"), String::from("chatter")),
        (String::from("type"), String::from("std_msgs/String")),
        (
            String::from("md5sum"),
            String::from("992ce8a1687cec8c8bd883ec73ca41d1"),
        ),
        (String::from("callerid"), String::from(caller)),
    ]
}

fn chatter_publisher(queue_size: usize) -> Publisher {
    Publisher::new(
        "localhost",
        "chatter",
        queue_size,
        "/talker",
        RawMessageDescription {
            msg_definition: String::from("string data"),
            msg_type: String::from("std_msgs/String"),
            md5sum: String::from("992ce8a1687cec8c8bd883ec73ca41d1"),
        },
        40100,
    )
}

fn framed(payload: &[u8]) -> Vec<u8> {
    let mut f = vec![payload.len() as u8, 0, 0, 0];
    f.extend_from_slice(payload);
    f
}

#[test]
fn every_live_connection_gets_every_message_in_order() {
    let mut publisher = chatter_publisher(10);
    let mut stream = publisher.stream(
        10,
        RawMessageDescription {
            msg_definition: String::from("string data"),
            msg_type: String::from("std_msgs/String"),
            md5sum: String::from("992ce8a1687cec8c8bd883ec73ca41d1"),
        },
    );
    let stream = stream.as_mut().unwrap();
    let a = publisher.accept_subscriber(&subscriber_fields("/a")).unwrap();
    let b = publisher.accept_subscriber(&subscriber_fields("/b")).unwrap();
    assert_ne!(a, b);
    for n in 1u8..=3 {
        stream.send(&mut publisher, &vec![n, n]).unwrap();
    }
    let qa = publisher.drain_queue(a).unwrap();
    let qb = publisher.drain_queue(b).unwrap();
    let expected = vec![framed(&[1, 1]), framed(&[2, 2]), framed(&[3, 3])];
    assert_eq!(qa, expected);
    assert_eq!(qb, expected);
    // Drained connections stay live with empty queues.
    assert_eq!(publisher.subscribers.len(), 2);
    assert!(publisher.drain_queue(a).unwrap().is_empty());
    // An unknown connection yields nothing.
    assert!(publisher.drain_queue(77).is_none());
}

#[test]
fn full_queue_drops_oldest_frames() {
    let mut publisher = chatter_publisher(2);
    let a = publisher.accept_subscriber(&subscriber_fields("/a")).unwrap();
    publisher.send(&framed(&[1]));
    publisher.send(&framed(&[2]));
    publisher.send(&framed(&[3]));
    let q = publisher.drain_queue(a).unwrap();
    assert_eq!(q, vec![framed(&[2]), framed(&[3])]);
}

#[test]
fn peer_reset_removes_one_connection_and_spares_the_rest() {
    let mut publisher = chatter_publisher(10);
    let a = publisher.accept_subscriber(&subscriber_fields("/a")).unwrap();
    let b = publisher.accept_subscriber(&subscriber_fields("/b")).unwrap();
    publisher.send(&framed(&[1]));
    let d = publisher.report_write_outcome(a, Err(IoErrorKind::ConnectionReset));
    assert_eq!(d, WriteDisposition::RemovedClosed);
    assert_eq!(publisher.subscribers.len(), 1);
    publisher.send(&framed(&[2]));
    let qb = publisher.drain_queue(b).unwrap();
    assert_eq!(qb, vec![framed(&[1]), framed(&[2])]);
    assert!(publisher.drain_queue(a).is_none());
}

#[test]
fn write_outcomes_are_classified() {
    let mut publisher = chatter_publisher(10);
    let a = publisher.accept_subscriber(&subscriber_fields("/a")).unwrap();
    let kept = publisher.report_write_outcome(a, Ok(()));
    assert_eq!(kept, WriteDisposition::Kept);
    assert_eq!(publisher.subscribers.len(), 1);
    let anomaly = publisher.report_write_outcome(a, Err(IoErrorKind::Other));
    assert_eq!(anomaly, WriteDisposition::RemovedAnomaly);
    assert!(publisher.subscribers.is_empty());
}

#[test]
fn closed_connection_classes_are_exactly_broken_pipe_and_reset() {
    assert!(is_closed_connection(&IoErrorKind::BrokenPipe));
    assert!(is_closed_connection(&IoErrorKind::ConnectionReset));
    assert!(!is_closed_connection(&IoErrorKind::ConnectionAborted));
    assert!(!is_closed_connection(&IoErrorKind::UnexpectedEof));
    assert!(!is_closed_connection(&IoErrorKind::Other));
    assert!(Error::Io(IoErrorKind::BrokenPipe).is_closed_connection());
    assert!(!Error::Io(IoErrorKind::Other).is_closed_connection());
    assert!(!Error::ServiceResponseInterruption.is_closed_connection());
    assert!(
        !Error::MessageTypeMismatch(String::from("a"), String::from("b")).is_closed_connection()
    );
}

#[test]
fn stream_requests_check_the_binding() {
    let mut publisher = chatter_publisher(10);
    let err = publisher
        .stream(
            10,
            RawMessageDescription {
                msg_definition: String::from("int32 data"),
                msg_type: String::from("std_msgs/Int32"),
                md5sum: String::from("da5909fbe378aeaf85e547e830cc1bb7"),
            },
        )
        .unwrap_err();
    match err {
        Error::MessageTypeMismatch(expected, actual) => {
            assert_eq!(expected, "std_msgs/String");
            assert_eq!(actual, "std_msgs/Int32");
        }
        other => panic!("wrong error kind: {:?}", other),
    }
}

#[test]
fn every_error_kind_is_programmatically_distinct() {
    let errors = vec![
        Error::Io(IoErrorKind::BrokenPipe),
        Error::ServiceConnectionFail(String::from("/add_two_ints")),
        Error::TopicConnectionFail(String::from("chatter")),
        Error::HeaderMismatch(
            String::from("topic"),
            String::from("chatter"),
            String::from("other"),
        ),
        Error::HeaderMissingField(String::from("callerid")),
        Error::MessageTypeMismatch(String::from("a"), String::from("b")),
        Error::ServiceResponseInterruption,
        Error::ServiceResponseUnknown,
    ];
    let descriptions: Vec<&str> = errors.iter().map(|e| e.description()).collect();
    assert_eq!(
        descriptions,
        vec![
            "I/O failure on connection",
            "Failed to connect to service",
            "Failed to connect to topic",
            "Data field within header mismatched",
            "Data field within header missing",
            "Cannot publish with multiple message types",
            "Data stream interrupted while reading service response",
            "Unknown error caused service response to panic",
        ]
    );
    // Only the closed-connection transport classes answer true.
    let closed: Vec<bool> = errors.iter().map(|e| e.is_closed_connection()).collect();
    assert_eq!(
        closed,
        vec![true, false, false, false, false, false, false, false]
    );
}
