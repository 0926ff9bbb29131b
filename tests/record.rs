use logkit::{Record, Source, LEVEL_ERROR, LEVEL_TRACE};

fn here() -> Source {
    Source { file: "tests/record.rs", line: 4, column: 1 }
}

fn text(record: &Record) -> String {
    String::from_utf8_lossy(record.buffer().as_slice()).to_string()
}

#[test]
fn new_record_holds_only_the_opening_brace() {
    let record = Record::new(LEVEL_TRACE, 512, here());
    assert_eq!(record.level(), LEVEL_TRACE);
    assert_eq!(text(&record), "{");
    assert!(record.buffer().capacity() >= 512);
    assert_eq!(record.source().file, "tests/record.rs");
    assert_eq!(record.source().line, 4);
    assert_eq!(record.source().column, 1);
}

#[test]
fn finish_without_fields_gives_empty_object() {
    let mut record = Record::new(LEVEL_TRACE, 512, here());
    record.finish();
    assert_eq!(text(&record), "{}\n");
}

#[test]
fn finish_replaces_the_last_separator() {
    let mut record = Record::new(LEVEL_TRACE, 512, here());
    record.append("a", &1);
    record.append("b", &2);
    assert_eq!(text(&record), "{\"a\":1,\"b\":2,");
    record.finish();
    assert_eq!(text(&record), "{\"a\":1,\"b\":2}\n");
}

#[test]
fn append_keeps_order_and_duplicate_keys() {
    let mut record = Record::new(LEVEL_TRACE, 8, here());
    record.append("pid", &12345).append("msg", &"think outside the box").append("pid", &true);
    record.finish();
    assert_eq!(
        text(&record),
        "{\"pid\":12345,\"msg\":\"think outside the box\",\"pid\":true}\n"
    );
}

#[test]
fn set_resets_level_source_and_buffer() {
    let mut record = Record::new(LEVEL_TRACE, 512, here());
    record.append("msg", &"less is more");
    record.finish();
    let capacity = record.buffer().capacity();
    let record = Record::set(record, LEVEL_ERROR, Source { file: "other.rs", line: 9, column: 3 });
    assert_eq!(record.level(), LEVEL_ERROR);
    assert_eq!(text(&record), "{");
    assert_eq!(record.source().file, "other.rs");
    assert_eq!(record.buffer().capacity(), capacity);
}

#[test]
fn keys_are_escaped_too() {
    let mut record = Record::new(LEVEL_TRACE, 16, here());
    record.append("we\"ird", &"x");
    record.finish();
    assert_eq!(text(&record), "{\"we\\\"ird\":\"x\"}\n");
}

#[test]
fn finished_records_parse_as_json() {
    let mut record = Record::new(LEVEL_TRACE, 16, here());
    record.append("s", &"a \"quoted\"\n value");
    record.append("i", &-42_i64);
    record.append("u", &u64::MAX);
    record.append("b", &false);
    record.finish();
    let bytes = record.buffer().as_slice();
    assert_eq!(bytes.last(), Some(&b'\n'));
    let value: serde_json::Value = serde_json::from_slice(bytes).unwrap();
    assert_eq!(value["s"], serde_json::Value::String("a \"quoted\"\n value".to_string()));
    assert_eq!(value["i"].as_i64(), Some(-42));
    assert_eq!(value["u"].as_u64(), Some(u64::MAX));
    assert_eq!(value["b"].as_bool(), Some(false));
}
