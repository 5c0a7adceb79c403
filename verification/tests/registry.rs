use rospub::error::Error;
use rospub::publications::PublicationsTracker;
use rospub::RawMessageDescription;

fn laser_scan() -> RawMessageDescription {
    RawMessageDescription {
        msg_definition: String::from("ranges etc."),
        msg_type: String::from("sensor_msgs/LaserScan"),
        md5sum: String::from("90c7ef2dc6895d81024acba2ac42f369"),
    }
}

fn string_msg() -> RawMessageDescription {
    RawMessageDescription {
        msg_definition: String::from("string data"),
        msg_type: String::from("std_msgs/String"),
        md5sum: String::from("992ce8a1687cec8c8bd883ec73ca41d1"),
    }
}

#[test]
fn add_registers_topic_and_port() {
    let mut tracker = PublicationsTracker::new();
    let stream = tracker
        .add("localhost", "scan", 10, "/node", laser_scan(), 40001)
        .unwrap();
    assert_eq!(stream.topic.name, "scan");
    assert_eq!(stream.topic.msg_type, "sensor_msgs/LaserScan");
    assert_eq!(tracker.get_port("scan"), Some(40001));
    assert_eq!(tracker.get_port("other"), None);
    let names = tracker.get_topic_names();
    assert_eq!(names, vec![String::from("scan")]);
}

#[test]
fn concurrent_adds_same_type_share_one_publisher() {
    let mut tracker = PublicationsTracker::new();
    let s1 = tracker
        .add("localhost", "scan", 10, "/node", laser_scan(), 40001)
        .unwrap();
    let s2 = tracker
        .add("localhost", "scan", 10, "/node", laser_scan(), 40002)
        .unwrap();
    let names = tracker.get_topic_names();
    assert_eq!(names.len(), 1);
    assert_eq!(names[0], "scan");
    assert_eq!(s1.topic.name, s2.topic.name);
    assert_eq!(s1.topic.md5sum, s2.topic.md5sum);
    assert_ne!(s1.stream_id, s2.stream_id);
    // The port stays the first publisher's: the second bind is unused.
    assert_eq!(tracker.get_port("scan"), Some(40001));
}

#[test]
fn conflicting_type_is_rejected_and_binding_kept() {
    let mut tracker = PublicationsTracker::new();
    tracker
        .add("localhost", "scan", 10, "/node", laser_scan(), 40001)
        .unwrap();
    let err = tracker
        .add("localhost", "scan", 10, "/node", string_msg(), 40002)
        .unwrap_err();
    match err {
        Error::MessageTypeMismatch(expected, actual) => {
            assert_eq!(expected, "sensor_msgs/LaserScan");
            assert_eq!(actual, "std_msgs/String");
        }
        other => panic!("wrong error kind: {:?}", other),
    }
    let topics = tracker.get_topics();
    assert_eq!(topics.len(), 1);
    assert_eq!(topics[0].msg_type, "sensor_msgs/LaserScan");
    assert_eq!(tracker.get_port("scan"), Some(40001));
}

#[test]
fn remove_erases_entry_and_readd_is_fresh() {
    let mut tracker = PublicationsTracker::new();
    tracker
        .add("localhost", "scan", 10, "/node", laser_scan(), 40001)
        .unwrap();
    tracker.remove("scan");
    assert_eq!(tracker.get_port("scan"), None);
    assert!(tracker.get_topic_names().is_empty());
    // Idempotent.
    tracker.remove("scan");
    assert_eq!(tracker.get_port("scan"), None);
    let s = tracker
        .add("localhost", "scan", 10, "/node", string_msg(), 40007)
        .unwrap();
    assert_eq!(tracker.get_port("scan"), Some(40007));
    assert_eq!(s.topic.msg_type, "std_msgs/String");
    assert_eq!(s.stream_id, 0);
}

#[test]
fn get_topics_reports_descriptors() {
    let mut tracker = PublicationsTracker::new();
    tracker
        .add("localhost", "scan", 10, "/node", laser_scan(), 40001)
        .unwrap();
    tracker
        .add("localhost", "chatter", 5, "/node", string_msg(), 40002)
        .unwrap();
    let topics = tracker.get_topics();
    assert_eq!(topics.len(), 2);
    assert_eq!(topics[0].name, "scan");
    assert_eq!(topics[0].md5sum, "90c7ef2dc6895d81024acba2ac42f369");
    assert_eq!(topics[1].name, "chatter");
    assert_eq!(topics[1].msg_type, "std_msgs/String");
}
