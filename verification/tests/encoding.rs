use loki::{Builder, Streams};

#[test]
fn round_trip_example() {
    let stream = Builder::new()
        .label("app", "foo")
        .log(Some(1000), "hello")
        .unwrap()
        .build();
    assert_eq!(
        stream.to_json(),
        "{\"stream\":{\"app\":\"foo\"},\"values\":[[\"1000\",\"hello\"]]}"
    );
}

#[test]
fn timestamp_rendered_as_exact_decimal() {
    let stream = Builder::new()
        .log(Some(1234567890123456789), "x")
        .unwrap()
        .build();
    assert_eq!(
        stream.to_json(),
        "{\"stream\":{},\"values\":[[\"1234567890123456789\",\"x\"]]}"
    );
    let zero = Builder::new().log(Some(0), "y").unwrap().build();
    assert_eq!(zero.to_json(), "{\"stream\":{},\"values\":[[\"0\",\"y\"]]}");
}

#[test]
fn multiple_labels_and_entries() {
    let stream = Builder::new()
        .label("app", "demo")
        .label("env", "prod")
        .log(Some(1), "one")
        .unwrap()
        .log(Some(2), "two")
        .unwrap()
        .build();
    assert_eq!(
        stream.to_json(),
        "{\"stream\":{\"app\":\"demo\",\"env\":\"prod\"},\"values\":[[\"1\",\"one\"],[\"2\",\"two\"]]}"
    );
}

#[test]
fn string_contents_are_escaped() {
    let stream = Builder::new()
        .label("k\"ey", "va\\lue")
        .log(Some(5), "line one\nline two\ttabbed\u{1}")
        .unwrap()
        .build();
    assert_eq!(
        stream.to_json(),
        "{\"stream\":{\"k\\\"ey\":\"va\\\\lue\"},\"values\":[[\"5\",\"line one\\nline two\\ttabbed\\u0001\"]]}"
    );
}

#[test]
fn envelope_wraps_streams_in_order() {
    let one = Builder::new().label("a", "1").build();
    let two = Builder::new().log(Some(7), "x").unwrap().build();
    let body = Streams { streams: vec![one, two] }.to_json();
    assert_eq!(
        body,
        "{\"streams\":[{\"stream\":{\"a\":\"1\"},\"values\":[]},{\"stream\":{},\"values\":[[\"7\",\"x\"]]}]}"
    );
}

#[test]
fn empty_envelope_keeps_mandatory_fields() {
    let body = Streams { streams: Vec::new() }.to_json();
    assert_eq!(body, "{\"streams\":[]}");
    let with_empty = Streams { streams: vec![Builder::new().build()] }.to_json();
    assert_eq!(with_empty, "{\"streams\":[{\"stream\":{},\"values\":[]}]}");
}

#[test]
fn wire_shape_is_valid_json() {
    let stream = Builder::new()
        .label("app", "f\"oo")
        .log(Some(1000), "he\\llo\n")
        .unwrap()
        .build();
    let body = Streams { streams: vec![stream] }.to_json();
    let value: serde_json::Value = serde_json::from_str(&body).unwrap();
    let streams = value.get("streams").unwrap().as_array().unwrap();
    assert_eq!(streams.len(), 1);
    let labels = streams[0].get("stream").unwrap().as_object().unwrap();
    assert_eq!(labels.get("app").unwrap().as_str().unwrap(), "f\"oo");
    let values = streams[0].get("values").unwrap().as_array().unwrap();
    assert_eq!(values[0].as_array().unwrap()[0].as_str().unwrap(), "1000");
    assert_eq!(values[0].as_array().unwrap()[1].as_str().unwrap(), "he\\llo\n");
}
