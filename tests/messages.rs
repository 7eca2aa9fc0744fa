use nestri_server::frame::{decode_frame, decode_message, encode_frame, envelope_of, payload_text};
use nestri_server::latency::{LatencyTracker, TimestampEntry};
use nestri_server::messages::{AnswerType, JoinerType, MessageBase, MessageJoin};

#[test]
fn wire_codes() {
    assert_eq!(AnswerType::from_i32(0), Some(AnswerType::AnswerOffline));
    assert_eq!(AnswerType::from_i32(1), Some(AnswerType::AnswerInUse));
    assert_eq!(AnswerType::from_i32(2), Some(AnswerType::AnswerOK));
    assert_eq!(AnswerType::from_i32(3), None);
    assert_eq!(AnswerType::AnswerOK.to_i32(), 2);
    assert_eq!(JoinerType::from_i32(1), Some(JoinerType::JoinerClient));
    assert_eq!(JoinerType::from_i32(-1), None);
    assert_eq!(JoinerType::JoinerNode.to_i32(), 0);
}

#[test]
fn join_message_is_tagged() {
    let j = MessageJoin::node();
    assert_eq!(j.base.payload_type, "join");
    assert_eq!(j.joiner_type, JoinerType::JoinerNode);
    assert_eq!(MessageBase::tagged("log").payload_type, "log");
}

#[test]
fn frames_round_trip() {
    let text = "{\"payload_type\":\"join\",\"joiner_type\":0}";
    let frame = encode_frame(text).unwrap();
    assert_ne!(frame.as_slice(), text.as_bytes());
    assert_eq!(&frame[..2], &[0x1f, 0x8b]);
    assert_eq!(decode_frame(&frame), Some(text.to_string()));
}

#[test]
fn bad_frames_decode_to_nothing() {
    assert_eq!(decode_frame(b"not gzip"), None);
    let frame = encode_frame("").unwrap();
    assert_eq!(decode_frame(&frame), Some(String::new()));
    assert_eq!(payload_text(vec![0xff, 0xfe]), None);
    assert_eq!(payload_text(b"ok".to_vec()), Some("ok".to_string()));
}

fn entry(stage: &str, time: &str) -> TimestampEntry {
    TimestampEntry { stage: stage.to_string(), time: time.to_string() }
}

#[test]
fn latency_spans_earliest_to_latest() {
    let mut t = LatencyTracker::new("seq-1".to_string());
    assert_eq!(t.sequence_id(), "seq-1");
    assert_eq!(t.total_latency(), None);
    t.timestamps.push(entry("client", "2024-01-01T00:00:01.500Z"));
    assert_eq!(t.total_latency(), None);
    t.timestamps.push(entry("relay", "2024-01-01T00:00:00Z"));
    t.timestamps.push(entry("node", "2024-01-01T01:00:00.250+01:00"));
    assert_eq!(t.total_latency(), Some(1500));
    t.timestamps.push(entry("bad", "yesterday"));
    assert_eq!(t.total_latency(), None);
}

#[test]
fn timestamps_are_recorded() {
    let mut t = LatencyTracker::new("s".to_string());
    t.add_timestamp("start");
    t.add_timestamp_at("end", "2024-01-01T00:00:00Z".to_string());
    assert_eq!(t.timestamps.len(), 2);
    assert_eq!(t.timestamps[0].stage, "start");
    assert!(!t.timestamps[0].time.is_empty());
    assert_eq!(t.timestamps[1].time, "2024-01-01T00:00:00Z");
}

#[test]
fn envelopes_are_read_from_any_body() {
    let frame = encode_frame("{\"payload_type\":\"answer\",\"answer_type\":2}").unwrap();
    assert_eq!(decode_message(&frame).unwrap().payload_type, "answer");
    let odd = encode_frame("{\"answer_type\":\"oops\",\"payload_type\":\"ice\",\"extra\":[1,2]}").unwrap();
    assert_eq!(decode_message(&odd).unwrap().payload_type, "ice");
    assert!(decode_message(&encode_frame("{\"payload_type\":3}").unwrap()).is_none());
    assert!(decode_message(&encode_frame("not json").unwrap()).is_none());
    assert!(decode_message(b"raw").is_none());
    assert_eq!(envelope_of("{\"payload_type\":\"sdp\"}").unwrap().payload_type, "sdp");
}
