use loki::Builder;

#[test]
fn labels_last_wins() {
    let stream = Builder::new()
        .label("a", "1")
        .label("b", "2")
        .label("a", "3")
        .build();
    let expected: Vec<(String, String)> = vec![
        ("b".to_string(), "2".to_string()),
        ("a".to_string(), "3".to_string()),
    ];
    assert_eq!(stream.labels(), &expected);
    assert!(stream.entries().is_empty());
}

#[test]
fn label_overwrite_single_key() {
    let stream = Builder::new().label("app", "one").label("app", "two").build();
    let expected: Vec<(String, String)> = vec![("app".to_string(), "two".to_string())];
    assert_eq!(stream.labels(), &expected);
}

#[test]
fn log_preserves_call_order() {
    let stream = Builder::new()
        .log(Some(3), "third-written-first")
        .unwrap()
        .log(Some(1), "then-this")
        .unwrap()
        .log(Some(2), "and-this")
        .unwrap()
        .build();
    let expected: Vec<(u128, String)> = vec![
        (3, "third-written-first".to_string()),
        (1, "then-this".to_string()),
        (2, "and-this".to_string()),
    ];
    assert_eq!(stream.entries(), &expected);
    assert_eq!(stream.entries().len(), 3);
}

#[test]
fn default_timestamp_is_recent_and_nondecreasing() {
    // Nanoseconds since the epoch at the start of 2020; any sane clock at
    // run time reads far past it.
    let year_2020: u128 = 1_577_836_800u128 * 1_000_000_000u128;
    let stream = Builder::new()
        .log(None, "first")
        .unwrap()
        .log(None, "second")
        .unwrap()
        .build();
    let entries = stream.entries();
    assert_eq!(entries.len(), 2);
    let t1 = entries[0].0;
    let t2 = entries[1].0;
    assert!(t1 > year_2020);
    assert!(t2 >= t1);
}

#[test]
fn explicit_timestamp_passes_through() {
    let stream = Builder::new().log(Some(123456789), "x").unwrap().build();
    assert_eq!(stream.entries()[0].0, 123456789u128);
}

#[test]
fn building_same_calls_twice_gives_equal_streams() {
    let one = Builder::new()
        .label("app", "demo")
        .log(Some(10), "a")
        .unwrap()
        .log(Some(20), "b")
        .unwrap()
        .build();
    let two = Builder::new()
        .label("app", "demo")
        .log(Some(10), "a")
        .unwrap()
        .log(Some(20), "b")
        .unwrap()
        .build();
    assert_eq!(one.labels(), two.labels());
    assert_eq!(one.entries(), two.entries());
    assert_eq!(one.to_json(), two.to_json());
}

#[test]
fn empty_builder_gives_empty_stream() {
    let stream = Builder::new().build();
    assert!(stream.labels().is_empty());
    assert!(stream.entries().is_empty());
    assert_eq!(stream.to_json(), "{\"stream\":{},\"values\":[]}");
}
