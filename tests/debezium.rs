use stream_meta::chunk::Datum;
use stream_meta::debezium::{datum_of, DebeziumJsonParser, RowChange, SourceColumnDesc};
use stream_meta::json::{ensure_not_null, find_member, JsonValue};
use stream_meta::error::ErrorCode;
use stream_meta::expr_vnode::DataType;

fn parser() -> DebeziumJsonParser {
    DebeziumJsonParser::new(vec![
        SourceColumnDesc { name: "ID".to_string(), data_type: DataType::Int32 },
        SourceColumnDesc { name: "v".to_string(), data_type: DataType::Varchar },
    ])
    .unwrap()
}

fn is_protocol_error<T>(r: &Result<T, stream_meta::error::RwError>) -> bool {
    matches!(r, Err(e) if matches!(e.inner(), ErrorCode::ProtocolError(_)))
}

fn as_pair(row: &[Datum]) -> (i32, String) {
    match (&row[0], &row[1]) {
        (Datum::Int32(id), Datum::Utf8(v)) => (*id, v.clone()),
        other => panic!("unexpected row {:?}", other),
    }
}

#[test]
fn debezium_update() {
    let payload = br#"{"payload": {"op": "u", "before": {"id": 1, "v": "a"}, "after": {"id": 1, "v": "b"}}}"#;
    match parser().parse_inner(payload).unwrap() {
        RowChange::Update(before, after) => {
            assert_eq!(as_pair(&before), (1, "a".to_string()));
            assert_eq!(as_pair(&after), (1, "b".to_string()));
        },
        other => panic!("expected an update, got {:?}", other),
    }
    let missing = br#"{"payload": {"op": "u", "after": {"id": 1, "v": "b"}}}"#;
    assert!(is_protocol_error(&parser().parse_inner(missing)));
    let null_before = br#"{"payload": {"op": "u", "before": null, "after": {"id": 1, "v": "b"}}}"#;
    assert!(is_protocol_error(&parser().parse_inner(null_before)));
}

#[test]
fn debezium_create_read_delete() {
    for op in ["c", "r"] {
        let payload = format!(r#"{{"payload": {{"op": "{}", "after": {{"id": 2, "v": "x"}}}}}}"#, op);
        match parser().parse_inner(payload.as_bytes()).unwrap() {
            RowChange::Insert(row) => assert_eq!(as_pair(&row), (2, "x".to_string())),
            other => panic!("expected an insert, got {:?}", other),
        }
    }
    let payload = br#"{"payload": {"op": "d", "before": {"id": 3, "v": "y"}, "after": null}}"#;
    match parser().parse_inner(payload).unwrap() {
        RowChange::Delete(row) => assert_eq!(as_pair(&row), (3, "y".to_string())),
        other => panic!("expected a delete, got {:?}", other),
    }
}

#[test]
fn debezium_missing_columns_are_null() {
    let payload = br#"{"payload": {"op": "c", "after": {"id": 4}}}"#;
    match parser().parse_inner(payload).unwrap() {
        RowChange::Insert(row) => {
            assert!(matches!(row[0], Datum::Int32(4)));
            assert!(matches!(row[1], Datum::Null));
        },
        other => panic!("expected an insert, got {:?}", other),
    }
}

#[test]
fn debezium_protocol_errors() {
    for payload in [
        &b"not json"[..],
        br#"{"schema": {}}"#,
        br#"{"payload": null}"#,
        br#"{"payload": {"before": {}}}"#,
        br#"{"payload": {"op": 3}}"#,
        br#"{"payload": {"op": "x", "after": {"id": 1}}}"#,
        br#"{"payload": {"op": "c"}}"#,
        br#"{"payload": {"op": "d", "after": {"id": 1}}}"#,
    ] {
        assert!(is_protocol_error(&parser().parse_inner(payload)), "{:?}", std::str::from_utf8(payload));
    }
}

#[test]
fn debezium_value_errors() {
    let too_big = br#"{"payload": {"op": "c", "after": {"id": 3000000000, "v": "a"}}}"#;
    let r = parser().parse_inner(too_big);
    assert!(matches!(r, Err(ref e) if matches!(e.inner(), ErrorCode::NumericValueOutOfRange)));
    let wrong = br#"{"payload": {"op": "c", "after": {"id": "one", "v": "a"}}}"#;
    let r = parser().parse_inner(wrong);
    assert!(matches!(r, Err(ref e) if matches!(e.inner(), ErrorCode::ParseError(_))));
}

#[test]
fn one_write_per_op() {
    let p = parser();
    let ev = |op: &str, before: &str, after: &str| {
        format!(r#"{{"payload": {{"op": "{}", "before": {}, "after": {}}}}}"#, op, before, after)
    };
    let row = r#"{"id": 1, "v": "x"}"#;
    assert!(matches!(p.parse_inner(ev("u", row, row).as_bytes()), Ok(RowChange::Update(_, _))));
    assert!(matches!(p.parse_inner(ev("c", "null", row).as_bytes()), Ok(RowChange::Insert(_))));
    assert!(matches!(p.parse_inner(ev("r", row, row).as_bytes()), Ok(RowChange::Insert(_))));
    assert!(matches!(p.parse_inner(ev("d", row, "null").as_bytes()), Ok(RowChange::Delete(_))));
    assert!(is_protocol_error(&p.parse_inner(ev("u", "null", row).as_bytes())));
    assert!(is_protocol_error(&p.parse_inner(ev("u", row, "null").as_bytes())));
    assert!(is_protocol_error(&p.parse_inner(ev("c", row, "null").as_bytes())));
    assert!(is_protocol_error(&p.parse_inner(ev("d", "null", row).as_bytes())));
    assert!(is_protocol_error(&p.parse_inner(ev("upsert", row, row).as_bytes())));
}

#[test]
fn update_checks_both_sides_before_rows() {
    // A bad value in `before` does not hide that `after` is missing.
    let payload = br#"{"payload": {"op": "u", "before": {"id": "bad"}}}"#;
    assert!(is_protocol_error(&parser().parse_inner(payload)));
    let payload = br#"{"payload": {"op": "u", "before": {"id": "bad"}, "after": {"id": 1}}}"#;
    let r = parser().parse_inner(payload);
    assert!(matches!(r, Err(ref e) if matches!(e.inner(), ErrorCode::ParseError(_))));
}

#[test]
fn json_members_and_nulls() {
    let doc = JsonValue::Object(vec![
        ("a".to_string(), JsonValue::Int(1)),
        ("n".to_string(), JsonValue::Null),
    ]);
    assert!(matches!(find_member(&doc, "a"), Some(JsonValue::Int(1))));
    assert!(find_member(&doc, "A").is_none());
    assert!(find_member(&JsonValue::Int(3), "a").is_none());
    assert!(ensure_not_null(find_member(&doc, "n")).is_none());
    assert!(ensure_not_null(find_member(&doc, "a")).is_some());
}

#[test]
fn datum_conversion() {
    assert!(matches!(datum_of(DataType::Int16, Some(&JsonValue::Int(-5))), Ok(Datum::Int16(-5))));
    assert!(matches!(datum_of(DataType::Int64, Some(&JsonValue::UInt(7))), Ok(Datum::Int64(7))));
    assert!(matches!(datum_of(DataType::Boolean, Some(&JsonValue::Bool(true))), Ok(Datum::Bool(true))));
    assert!(matches!(datum_of(DataType::Varchar, None), Ok(Datum::Null)));
    assert!(matches!(datum_of(DataType::Int32, Some(&JsonValue::Null)), Ok(Datum::Null)));
    let r = datum_of(DataType::Int16, Some(&JsonValue::Int(40000)));
    assert!(matches!(r, Err(ref e) if matches!(e.inner(), ErrorCode::NumericValueOutOfRange)));
    let r = datum_of(DataType::Int64, Some(&JsonValue::UInt(u64::MAX)));
    assert!(matches!(r, Err(ref e) if matches!(e.inner(), ErrorCode::NumericValueOutOfRange)));
    let r = datum_of(DataType::Varchar, Some(&JsonValue::Other));
    assert!(matches!(r, Err(ref e) if matches!(e.inner(), ErrorCode::ParseError(_))));
}

#[test]
fn repeated_key_keeps_last_value() {
    let mut members: Vec<String> = (0..40).map(|i| format!(r#""k{}": {}"#, i, i)).collect();
    members.push(r#""id": 1"#.to_string());
    members.push(r#""v": "first""#.to_string());
    members.push(r#""v": "last""#.to_string());
    let payload = format!(r#"{{"payload": {{"op": "c", "after": {{{}}}}}}}"#, members.join(", "));
    for _ in 0..4 {
        match parser().parse_inner(payload.as_bytes()).unwrap() {
            RowChange::Insert(row) => assert_eq!(as_pair(&row), (1, "last".to_string())),
            other => panic!("expected an insert, got {:?}", other),
        }
    }
}
