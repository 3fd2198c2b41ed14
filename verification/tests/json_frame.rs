use uhttp::sse::{after_event, frame_event, Delivery, FrameError, JsonFrame, StreamEvent, StreamStep};

fn value<T: serde::Serialize>(v: T) -> serde_json::Value {
    serde_json::to_value(v).unwrap()
}

#[test]
fn frames_carry_an_event_line_and_a_data_line() {
    let frame = JsonFrame::builder()
        .event("message")
        .data(value(vec!["a", "b"]))
        .as_frame()
        .unwrap();
    assert_eq!(
        String::from_utf8(frame).unwrap(),
        "event: message\ndata: [\"a\",\"b\"]\n\n"
    );
}

#[test]
fn frames_without_an_event_omit_the_event_line() {
    let frame = JsonFrame::builder().data(value(vec![1, 2])).as_frame().unwrap();
    assert_eq!(String::from_utf8(frame).unwrap(), "data: [1,2]\n\n");
}

#[test]
fn frames_without_data_omit_the_data_line() {
    let frame = JsonFrame::builder().event("heartbeat").as_frame().unwrap();
    assert_eq!(String::from_utf8(frame).unwrap(), "event: heartbeat\n\n");
}

#[test]
fn a_unit_payload_sends_a_null_data_line() {
    let frame = JsonFrame::builder()
        .event("heartbeat")
        .data(value(()))
        .as_frame()
        .unwrap();
    assert_eq!(
        String::from_utf8(frame).unwrap(),
        "event: heartbeat\ndata: null\n\n"
    );
}

#[test]
fn newlines_in_data_are_escaped_rather_than_breaking_the_frame() {
    let frame = JsonFrame::builder()
        .event("message")
        .data(value("one\ntwo"))
        .as_frame()
        .unwrap();
    assert_eq!(
        String::from_utf8(frame).unwrap(),
        "event: message\ndata: \"one\\ntwo\"\n\n"
    );
}

#[test]
fn an_empty_frame_is_an_error() {
    assert!(JsonFrame::builder().as_frame().is_err());
}

#[test]
fn a_frame_whose_event_has_a_line_break_is_an_error() {
    assert!(
        JsonFrame::builder()
            .event("bad\ndata: injected")
            .as_frame()
            .is_err()
    );
}

#[test]
fn the_errors_tell_the_cases_apart() {
    assert_eq!(JsonFrame::builder().as_frame().err(), Some(FrameError::Empty));
    assert_eq!(
        JsonFrame::builder().event("a\rb").as_frame().err(),
        Some(FrameError::LineBreakInEvent)
    );
}

#[test]
fn frame_layout_from_parts() {
    assert_eq!(
        uhttp::sse::json_frame::frame_bytes(Some("e"), Some(b"1")),
        b"event: e\ndata: 1\n\n".to_vec()
    );
    assert_eq!(uhttp::sse::json_frame::frame_bytes(None, None), b"\n".to_vec());
}

#[test]
fn a_frame_has_one_line_feed_per_line() {
    let mut object = serde_json::Map::new();
    object.insert("k\nx".to_string(), serde_json::Value::String("v\r\n".to_string()));
    let frame = JsonFrame::builder()
        .event("ü")
        .data(serde_json::Value::Object(object))
        .as_frame()
        .unwrap();
    assert_eq!(frame.iter().filter(|b| **b == b'\n').count(), 3);
    assert!(frame.ends_with(b"\n\n"));
}

#[test]
fn stream_events_become_frames() {
    assert_eq!(frame_event(StreamEvent::HeartBeat).unwrap(), b"event: heartbeat\n\n".to_vec());
    assert_eq!(
        frame_event(StreamEvent::Frame(value(vec![1]))).unwrap(),
        b"event: event\ndata: [1]\n\n".to_vec()
    );
}

#[test]
fn failures_stop_heartbeats_but_not_values() {
    assert_eq!(after_event(true, true, true), (StreamStep::Continue, None));
    assert_eq!(after_event(true, true, false), (StreamStep::Stop, None));
    assert_eq!(after_event(true, false, false), (StreamStep::Stop, None));
    assert_eq!(after_event(false, true, true), (StreamStep::Continue, Some(Delivery::Delivered)));
    assert_eq!(after_event(false, true, false), (StreamStep::Continue, Some(Delivery::CannotWrite)));
    assert_eq!(after_event(false, false, false), (StreamStep::Continue, Some(Delivery::CannotFrame)));
}

#[test]
fn object_keys_keep_the_order_they_were_given_in() {
    let mut map = serde_json::Map::new();
    map.insert(String::from("zeta"), value(1));
    map.insert(String::from("alpha"), value(2));
    let frame = JsonFrame::builder()
        .data(serde_json::Value::Object(map))
        .build()
        .unwrap()
        .to_vec()
        .unwrap();
    assert_eq!(String::from_utf8(frame).unwrap(), "data: {\"zeta\":1,\"alpha\":2}\n\n");
}
