use record_codec::codec::{Formatter, Parser};
use record_codec::debezium::{DebeziumDBType, DebeziumMessageParser};
use record_codec::dsv::{DsvFormatter, DsvParser, DsvSettings};
use record_codec::errors::{FormatterError, ParseError, PsqlSnapshotFormatterError};
use record_codec::events::{
    DataEventType, DiffEntry, DiffValues, ErrorRemovalLogic, ParsedEvent, ParsedEventWithErrors,
    ReaderContext, SessionType,
};
use record_codec::identity::{
    IdentityFormatter, IdentityParser, KeyGenerationPolicy, NullFormatter, SingleColumnFormatter,
};
use record_codec::jsonlines::{JsonLinesFormatter, JsonLinesParser};
use record_codec::jsonvalues::{StrEntry, StrMap};
use record_codec::psql::{PsqlSnapshotFormatter, PsqlUpdatesFormatter};
use record_codec::schema::{InnerSchemaField, Schema, SchemaEntry};
use record_codec::transparent::TransparentParser;
use record_codec::value::{FloatRepr, JsonEntry, JsonNumber, JsonValue, Key, Type, Value};

fn schema_of(entries: Vec<(&str, Type, Option<Value>)>) -> Schema {
    Schema {
        entries: entries
            .into_iter()
            .map(|(n, t, d)| SchemaEntry {
                name: n.to_string(),
                field: InnerSchemaField { type_: t, default: d },
            })
            .collect(),
    }
}

fn names(v: Vec<&str>) -> Vec<String> {
    v.into_iter().map(|s| s.to_string()).collect()
}

fn raw(event: DataEventType, s: &str) -> ReaderContext {
    ReaderContext::RawBytes(event, s.as_bytes().to_vec())
}

fn clean(evs: Vec<ParsedEventWithErrors>) -> Vec<ParsedEvent> {
    evs.into_iter()
        .map(|e| e.remove_errors(ErrorRemovalLogic::FailOnError).unwrap())
        .collect()
}

fn key_of(n: u128) -> Key {
    Key { id: n }
}

#[test]
fn delimited_parse_two_records() {
    let schema = schema_of(vec![("a", Type::Int, None), ("b", Type::String, None)]);
    let settings = DsvSettings::new(None, names(vec!["a", "b"]), ',');
    let mut parser = DsvParser::new(settings, schema).unwrap();
    assert_eq!(parser.parse(&raw(DataEventType::Insert, "a,b")).unwrap(), vec![]);
    let ev1 = clean(parser.parse(&raw(DataEventType::Insert, "1,hello")).unwrap());
    assert_eq!(
        ev1,
        vec![ParsedEvent::Insert((
            None,
            vec![Value::Int(1), Value::String("hello".to_string())]
        ))]
    );
    let ev2 = clean(parser.parse(&raw(DataEventType::Insert, "2,")).unwrap());
    assert_eq!(
        ev2,
        vec![ParsedEvent::Insert((
            None,
            vec![Value::Int(2), Value::String(String::new())]
        ))]
    );
    assert_eq!(parser.column_count(), 2);
}

#[test]
fn delimited_parse_with_default() {
    let schema = schema_of(vec![("x", Type::Int, Some(Value::Int(42)))]);
    let settings = DsvSettings::new(None, names(vec!["x"]), ',');
    let mut parser = DsvParser::new(settings, schema).unwrap();
    let tok = |t: &str| ReaderContext::TokenizedEntries(DataEventType::Insert, names(vec![t]));
    assert_eq!(parser.parse(&tok("x")).unwrap(), vec![]);
    let ev1 = clean(parser.parse(&tok("")).unwrap());
    assert_eq!(ev1, vec![ParsedEvent::Insert((None, vec![Value::Int(42)]))]);
    let ev2 = clean(parser.parse(&tok("7")).unwrap());
    assert_eq!(ev2, vec![ParsedEvent::Insert((None, vec![Value::Int(7)]))]);
}

#[test]
fn delimited_empty_string_never_takes_default() {
    let schema = schema_of(vec![(
        "s",
        Type::String,
        Some(Value::String("fallback".to_string())),
    )]);
    let settings = DsvSettings::new(None, names(vec!["s"]), ',');
    let mut parser = DsvParser::new(settings, schema).unwrap();
    let tok = |t: &str| ReaderContext::TokenizedEntries(DataEventType::Insert, names(vec![t]));
    parser.parse(&tok("s")).unwrap();
    let ev = clean(parser.parse(&tok("")).unwrap());
    assert_eq!(
        ev,
        vec![ParsedEvent::Insert((None, vec![Value::String(String::new())]))]
    );
}

#[test]
fn boolean_tolerance() {
    let schema = schema_of(vec![("f", Type::Bool, None)]);
    let settings = DsvSettings::new(None, names(vec!["f"]), ',');
    let mut parser = DsvParser::new(settings, schema).unwrap();
    let tok = |t: &str| ReaderContext::TokenizedEntries(DataEventType::Insert, names(vec![t]));
    parser.parse(&tok("f")).unwrap();
    for (input, expect) in [("YES", true), ("off", false), ("t", true)] {
        let ev = clean(parser.parse(&tok(input)).unwrap());
        assert_eq!(ev, vec![ParsedEvent::Insert((None, vec![Value::Bool(expect)]))]);
    }
    let evs = parser.parse(&tok("bogus")).unwrap();
    let err = evs
        .into_iter()
        .next()
        .unwrap()
        .remove_errors(ErrorRemovalLogic::FailOnError)
        .unwrap_err();
    match err {
        ParseError::SchemaNotSatisfied { error, value, .. } => {
            assert!(error.contains("not parsable"));
            assert_eq!(value, "bogus");
        }
        other => panic!("unexpected error {other:?}"),
    }
}

#[test]
fn commit_literal_is_exactly_one_advance_time() {
    let schema = schema_of(vec![("a", Type::Int, None)]);
    let settings = DsvSettings::new(None, names(vec!["a"]), ',');
    let mut parser = DsvParser::new(settings, schema).unwrap();
    let evs = parser
        .parse(&ReaderContext::TokenizedEntries(
            DataEventType::Insert,
            names(vec!["*COMMIT*"]),
        ))
        .unwrap();
    assert_eq!(evs, vec![ParsedEventWithErrors::AdvanceTime]);
    let evs2 = parser.parse(&raw(DataEventType::Insert, "  *COMMIT*  ")).unwrap();
    assert_eq!(evs2, vec![ParsedEventWithErrors::AdvanceTime]);
}

#[test]
fn delimited_header_errors() {
    let schema = schema_of(vec![("a", Type::Int, None), ("b", Type::Int, None)]);
    let settings = DsvSettings::new(None, names(vec!["a", "b"]), ',');
    let mut parser = DsvParser::new(settings, schema).unwrap();
    let err = parser.parse(&raw(DataEventType::Insert, "a,c")).unwrap_err();
    match err {
        ParseError::FieldsNotFoundInHeader { parsed, requested } => {
            assert_eq!(parsed, names(vec!["a", "c"]));
            assert_eq!(requested, names(vec!["a", "b"]));
        }
        other => panic!("unexpected error {other:?}"),
    }
}

#[test]
fn delimited_too_few_tokens() {
    let schema = schema_of(vec![("a", Type::Int, None), ("b", Type::Int, None)]);
    let settings = DsvSettings::new(None, names(vec!["a", "b"]), ',');
    let mut parser = DsvParser::new(settings, schema).unwrap();
    parser.parse(&raw(DataEventType::Insert, "a,b")).unwrap();
    let err = parser.parse(&raw(DataEventType::Insert, "1")).unwrap_err();
    assert!(matches!(err, ParseError::UnexpectedNumberOfCsvTokens(1)));
}

#[test]
fn delimited_field_not_in_schema() {
    let schema = schema_of(vec![("a", Type::Int, None)]);
    let settings = DsvSettings::new(None, names(vec!["a", "zz"]), ',');
    let err = DsvParser::new(settings, schema).unwrap_err();
    match err {
        ParseError::FieldNotInSchema { name, schema_keys } => {
            assert_eq!(name, "zz");
            assert_eq!(schema_keys, names(vec!["a"]));
        }
        other => panic!("unexpected error {other:?}"),
    }
}

#[test]
fn delimited_unparsable_type() {
    let schema = schema_of(vec![("d", Type::DateTimeNaive, None)]);
    let settings = DsvSettings::new(None, names(vec!["d"]), ',');
    let mut parser = DsvParser::new(settings, schema).unwrap();
    let tok = |t: &str| ReaderContext::TokenizedEntries(DataEventType::Insert, names(vec![t]));
    parser.parse(&tok("d")).unwrap();
    let evs = parser.parse(&tok("2024")).unwrap();
    let err = evs
        .into_iter()
        .next()
        .unwrap()
        .remove_errors(ErrorRemovalLogic::FailOnError)
        .unwrap_err();
    assert!(matches!(err, ParseError::UnparsableType(Type::DateTimeNaive)));
}

#[test]
fn delimited_float_and_json_cells() {
    let schema = schema_of(vec![("f", Type::Float, None), ("j", Type::Json, None)]);
    let settings = DsvSettings::new(None, names(vec!["f", "j"]), ';');
    let mut parser = DsvParser::new(settings, schema).unwrap();
    parser.parse(&raw(DataEventType::Insert, "f;j")).unwrap();
    let ev = clean(parser.parse(&raw(DataEventType::Insert, "2.5;{\"k\":1}")).unwrap());
    match &ev[0] {
        ParsedEvent::Insert((None, vals)) => {
            assert_eq!(vals[0], Value::Float(FloatRepr { text: "2.5".to_string() }));
            match &vals[1] {
                Value::Json(JsonValue::Object(entries)) => {
                    assert_eq!(entries.len(), 1);
                    assert_eq!(entries[0].name, "k");
                    match &entries[0].value {
                        JsonValue::Number(n) => assert_eq!(n.as_int, Some(1)),
                        other => panic!("unexpected json {other:?}"),
                    }
                }
                other => panic!("unexpected value {other:?}"),
            }
        }
        other => panic!("unexpected event {other:?}"),
    }
}

#[test]
fn delimited_replace_errors_policy_keeps_row() {
    let schema = schema_of(vec![("a", Type::Int, None), ("b", Type::Int, None)]);
    let settings = DsvSettings::new(None, names(vec!["a", "b"]), ',');
    let mut parser = DsvParser::new(settings, schema).unwrap();
    parser.parse(&raw(DataEventType::Insert, "a,b")).unwrap();
    let evs = parser.parse(&raw(DataEventType::Insert, "1,oops")).unwrap();
    let ev = evs
        .into_iter()
        .next()
        .unwrap()
        .remove_errors(ErrorRemovalLogic::ReplaceErrors)
        .unwrap();
    assert_eq!(
        ev,
        ParsedEvent::Insert((None, vec![Value::Int(1), Value::Error]))
    );
}

#[test]
fn delimited_duplicate_header_binds_last_occurrence() {
    let schema = schema_of(vec![("a", Type::Int, None)]);
    let settings = DsvSettings::new(None, names(vec!["a"]), ',');
    let mut parser = DsvParser::new(settings, schema).unwrap();
    parser.parse(&raw(DataEventType::Insert, "a,a")).unwrap();
    let ev = clean(parser.parse(&raw(DataEventType::Insert, "1,2")).unwrap());
    assert_eq!(ev, vec![ParsedEvent::Insert((None, vec![Value::Int(2)]))]);
}

#[test]
fn delimited_key_columns() {
    let schema = schema_of(vec![("k", Type::Int, None), ("v", Type::String, None)]);
    let settings = DsvSettings::new(Some(names(vec!["k"])), names(vec!["k", "v"]), ',');
    let mut parser = DsvParser::new(settings, schema).unwrap();
    parser.parse(&raw(DataEventType::Insert, "k,v")).unwrap();
    let ev = clean(parser.parse(&raw(DataEventType::Insert, "5,x")).unwrap());
    assert_eq!(
        ev,
        vec![ParsedEvent::Insert((
            Some(vec![Value::Int(5)]),
            vec![Value::Int(5), Value::String("x".to_string())]
        ))]
    );
}

#[test]
fn delimited_source_reset_rereads_header() {
    let schema = schema_of(vec![("a", Type::Int, None)]);
    let settings = DsvSettings::new(None, names(vec!["a"]), ',');
    let mut parser = DsvParser::new(settings, schema).unwrap();
    parser.parse(&raw(DataEventType::Insert, "a")).unwrap();
    parser.on_new_source_started(&None);
    // The first record after a reset is a header again.
    assert_eq!(parser.parse(&raw(DataEventType::Insert, "a")).unwrap(), vec![]);
    let ev = clean(parser.parse(&raw(DataEventType::Insert, "3")).unwrap());
    assert_eq!(ev, vec![ParsedEvent::Insert((None, vec![Value::Int(3)]))]);
}

#[test]
fn dsv_formatter_header_then_lines() {
    let settings = DsvSettings::new(None, names(vec!["a", "b"]), ',');
    let mut fmt = DsvFormatter::new(settings);
    let ctx = fmt
        .format(
            &key_of(1),
            &vec![Value::Int(1), Value::String("x".to_string())],
            7,
            1,
        )
        .unwrap();
    assert_eq!(ctx.payloads.len(), 2);
    assert_eq!(String::from_utf8(ctx.payloads[0].clone()).unwrap(), "a,b,time,diff");
    assert_eq!(String::from_utf8(ctx.payloads[1].clone()).unwrap(), "1,x,7,1");
    let ctx2 = fmt
        .format(
            &key_of(1),
            &vec![Value::Int(2), Value::String("y".to_string())],
            8,
            -1,
        )
        .unwrap();
    assert_eq!(ctx2.payloads.len(), 1);
    assert_eq!(String::from_utf8(ctx2.payloads[0].clone()).unwrap(), "2,y,8,-1");
    let err = fmt.format(&key_of(1), &vec![Value::Int(2)], 9, 1).unwrap_err();
    assert!(matches!(err, FormatterError::ColumnsValuesCountMismatch));
}

#[test]
fn dsv_round_trip_cells() {
    // Delimited format then parse reproduces the values.
    let settings = DsvSettings::new(None, names(vec!["i", "s", "f", "b"]), ',');
    let mut fmt = DsvFormatter::new(settings);
    let vals = vec![
        Value::Int(-17),
        Value::String("abc".to_string()),
        Value::Float(FloatRepr { text: "2.5".to_string() }),
        Value::Bool(true),
    ];
    let ctx = fmt.format(&key_of(9), &vals, 3, 1).unwrap();
    let header = String::from_utf8(ctx.payloads[0].clone()).unwrap();
    let line = String::from_utf8(ctx.payloads[1].clone()).unwrap();
    let schema = schema_of(vec![
        ("i", Type::Int, None),
        ("s", Type::String, None),
        ("f", Type::Float, None),
        ("b", Type::Bool, None),
    ]);
    let settings2 = DsvSettings::new(None, names(vec!["i", "s", "f", "b"]), ',');
    let mut parser = DsvParser::new(settings2, schema).unwrap();
    parser.parse(&raw(DataEventType::Insert, &header)).unwrap();
    let ev = clean(parser.parse(&raw(DataEventType::Insert, &line)).unwrap());
    match &ev[0] {
        ParsedEvent::Insert((None, parsed)) => assert_eq!(&parsed[..4], &vals[..]),
        other => panic!("unexpected event {other:?}"),
    }
}

#[test]
fn jsonlines_parse_fields_and_defaults() {
    let schema = schema_of(vec![
        ("a", Type::Int, None),
        ("b", Type::String, Some(Value::String("dflt".to_string()))),
    ]);
    let mut parser = JsonLinesParser::new(
        None,
        names(vec!["a", "b"]),
        StrMap::empty(),
        false,
        schema,
        SessionType::Native,
    )
    .unwrap();
    let ev = clean(parser.parse(&raw(DataEventType::Insert, "{\"a\": 3}")).unwrap());
    assert_eq!(
        ev,
        vec![ParsedEvent::Insert((
            None,
            vec![Value::Int(3), Value::String("dflt".to_string())]
        ))]
    );
    let err = parser.parse(&raw(DataEventType::Insert, "not json")).unwrap_err();
    assert!(matches!(err, ParseError::FailedToParseJson(_)));
    assert_eq!(
        parser.parse(&raw(DataEventType::Insert, "*COMMIT*")).unwrap(),
        vec![ParsedEventWithErrors::AdvanceTime]
    );
    assert_eq!(parser.parse(&raw(DataEventType::Insert, "   ")).unwrap(), vec![]);
}

#[test]
fn jsonlines_pointer_paths_and_absence() {
    let schema = schema_of(vec![("x", Type::Int, None)]);
    let paths = StrMap {
        entries: vec![StrEntry { name: "x".to_string(), path: "/p/0".to_string() }],
    };
    let mut parser = JsonLinesParser::new(
        None,
        names(vec!["x"]),
        paths,
        true,
        schema,
        SessionType::Native,
    )
    .unwrap();
    let ev = clean(parser.parse(&raw(DataEventType::Insert, "{\"p\": [9, 8]}")).unwrap());
    assert_eq!(ev, vec![ParsedEvent::Insert((None, vec![Value::Int(9)]))]);
    let evs = parser.parse(&raw(DataEventType::Insert, "{\"q\": 1}")).unwrap();
    let err = evs
        .into_iter()
        .next()
        .unwrap()
        .remove_errors(ErrorRemovalLogic::FailOnError)
        .unwrap_err();
    match err {
        ParseError::FailedToExtractJsonField { field_name, path, .. } => {
            assert_eq!(field_name, "x");
            assert_eq!(path, Some("/p/0".to_string()));
        }
        other => panic!("unexpected error {other:?}"),
    }
}

#[test]
fn jsonlines_upsert_session() {
    let schema = schema_of(vec![("a", Type::Int, None)]);
    let mut parser = JsonLinesParser::new(
        Some(names(vec!["a"])),
        names(vec!["a"]),
        StrMap::empty(),
        false,
        schema,
        SessionType::Upsert,
    )
    .unwrap();
    let ev = clean(parser.parse(&raw(DataEventType::Upsert, "{\"a\": 1}")).unwrap());
    assert_eq!(
        ev,
        vec![ParsedEvent::Upsert((
            Some(vec![Value::Int(1)]),
            Some(vec![Value::Int(1)])
        ))]
    );
    let ev2 = clean(parser.parse(&raw(DataEventType::Delete, "{\"a\": 2}")).unwrap());
    assert_eq!(ev2, vec![ParsedEvent::Upsert((Some(vec![Value::Int(2)]), None))]);
}

#[test]
fn jsonlines_coercion_cases() {
    let schema = schema_of(vec![
        ("t", Type::Tuple(vec![Type::Int, Type::String]), None),
        ("l", Type::List(Box::new(Type::Bool)), None),
        ("o", Type::Optional(Box::new(Type::Int)), None),
        ("any", Type::Any, None),
    ]);
    let mut parser = JsonLinesParser::new(
        None,
        names(vec!["t", "l", "o", "any"]),
        StrMap::empty(),
        true,
        schema,
        SessionType::Native,
    )
    .unwrap();
    let line = "{\"t\": [4, \"s\"], \"l\": [true, false], \"o\": null, \"any\": 2.5}";
    let ev = clean(parser.parse(&raw(DataEventType::Insert, line)).unwrap());
    assert_eq!(
        ev,
        vec![ParsedEvent::Insert((
            None,
            vec![
                Value::Tuple(vec![Value::Int(4), Value::String("s".to_string())]),
                Value::List(vec![Value::Bool(true), Value::Bool(false)]),
                Value::Null,
                Value::Float(FloatRepr { text: "2.5".to_string() }),
            ]
        ))]
    );
}

#[test]
fn jsonlines_formatter_output() {
    let mut fmt = JsonLinesFormatter::new(names(vec!["a", "b"]));
    let ctx = fmt
        .format(
            &key_of(2),
            &vec![Value::Int(1), Value::String("x\"y".to_string())],
            5,
            -1,
        )
        .unwrap();
    assert_eq!(ctx.payloads.len(), 1);
    assert_eq!(
        String::from_utf8(ctx.payloads[0].clone()).unwrap(),
        "{\"a\":1,\"b\":\"x\\\"y\",\"diff\":-1,\"time\":5}"
    );
    let err = fmt
        .format(&key_of(2), &vec![Value::Error, Value::Int(0)], 5, 1)
        .unwrap_err();
    assert!(matches!(err, FormatterError::ErrorValueNonJsonSerializable));
    let err2 = fmt
        .format(&key_of(2), &vec![Value::PyObjectWrapper, Value::Int(0)], 5, 1)
        .unwrap_err();
    assert!(matches!(err2, FormatterError::TypeNonJsonSerializable { .. }));
}

#[test]
fn jsonlines_formatter_serializes_composites() {
    let mut fmt = JsonLinesFormatter::new(names(vec!["v"]));
    let v = Value::Tuple(vec![
        Value::Bytes(vec![1, 2]),
        Value::Duration(77),
        Value::DateTimeUtc(5),
        Value::Json(JsonValue::Bool(true)),
    ]);
    let ctx = fmt.format(&key_of(0), &vec![v], 1, 1).unwrap();
    assert_eq!(
        String::from_utf8(ctx.payloads[0].clone()).unwrap(),
        "{\"v\":[[1,2],77,\"5\",true],\"diff\":1,\"time\":1}"
    );
}

#[test]
fn debezium_postgres_update() {
    let mut parser = DebeziumMessageParser::new(
        Some(names(vec!["id"])),
        names(vec!["id", "v"]),
        DebeziumMessageParser::standard_separator(),
        DebeziumDBType::Postgres,
    );
    assert_eq!(parser.session_type(), SessionType::Native);
    let key = "{\"payload\": {\"id\": 1}}";
    let value = "{\"payload\": {\"op\": \"u\", \"before\": {\"id\": 1, \"v\": \"a\"}, \"after\": {\"id\": 1, \"v\": \"b\"}}}";
    let ctx = ReaderContext::KeyValue(
        Some(key.as_bytes().to_vec()),
        Some(value.as_bytes().to_vec()),
    );
    let ev = clean(parser.parse(&ctx).unwrap());
    assert_eq!(
        ev,
        vec![
            ParsedEvent::Delete((
                Some(vec![Value::Int(1)]),
                vec![Value::Int(1), Value::String("a".to_string())]
            )),
            ParsedEvent::Insert((
                Some(vec![Value::Int(1)]),
                vec![Value::Int(1), Value::String("b".to_string())]
            )),
        ]
    );
}

#[test]
fn debezium_mongo_delete() {
    let mut parser = DebeziumMessageParser::new(
        Some(names(vec!["_id"])),
        names(vec!["_id"]),
        DebeziumMessageParser::standard_separator(),
        DebeziumDBType::MongoDB,
    );
    assert_eq!(parser.session_type(), SessionType::Upsert);
    let key = "{\"payload\": {\"_id\": \"X\"}}";
    let value = "{\"payload\": {\"op\": \"d\", \"before\": {\"_id\": \"X\"}}}";
    let ctx = ReaderContext::KeyValue(
        Some(key.as_bytes().to_vec()),
        Some(value.as_bytes().to_vec()),
    );
    let ev = clean(parser.parse(&ctx).unwrap());
    assert_eq!(
        ev,
        vec![ParsedEvent::Upsert((
            Some(vec![Value::String("X".to_string())]),
            None
        ))]
    );
}

#[test]
fn debezium_envelope_errors() {
    let mut parser = DebeziumMessageParser::new(
        None,
        names(vec!["a"]),
        DebeziumMessageParser::standard_separator(),
        DebeziumDBType::Postgres,
    );
    let err = parser
        .parse(&ReaderContext::KeyValue(None, None))
        .unwrap_err();
    assert!(matches!(err, ParseError::EmptyKafkaPayload));
    // A null value document is a tombstone: no events.
    let evs = parser
        .parse(&ReaderContext::KeyValue(None, Some(b"null".to_vec())))
        .unwrap();
    assert_eq!(evs, vec![]);
    let err2 = parser
        .parse(&ReaderContext::KeyValue(None, Some(b"[1]".to_vec())))
        .unwrap_err();
    assert!(matches!(err2, ParseError::DebeziumFormatViolated(_)));
    let err3 = parser
        .parse(&ReaderContext::KeyValue(
            None,
            Some(b"{\"payload\": {\"op\": \"z\"}}".to_vec()),
        ))
        .unwrap_err();
    match err3 {
        ParseError::UnsupportedDebeziumOperation(op) => assert_eq!(op, "z"),
        other => panic!("unexpected error {other:?}"),
    }
    let err4 = parser
        .parse(&ReaderContext::KeyValue(None, Some(b"{\"a\": 1}".to_vec())))
        .unwrap_err();
    assert!(matches!(err4, ParseError::DebeziumFormatViolated(_)));
}

#[test]
fn debezium_raw_line_splits_on_separator() {
    let mut parser = DebeziumMessageParser::new(
        None,
        names(vec!["a"]),
        DebeziumMessageParser::standard_separator(),
        DebeziumDBType::Postgres,
    );
    let line = format!(
        "{}        {}",
        "{\"payload\": {}}",
        "{\"payload\": {\"op\": \"c\", \"after\": {\"a\": 5}}}"
    );
    let ev = clean(parser.parse(&raw(DataEventType::Insert, &line)).unwrap());
    assert_eq!(ev, vec![ParsedEvent::Insert((None, vec![Value::Int(5)]))]);
    let err = parser.parse(&raw(DataEventType::Insert, "only-one-token")).unwrap_err();
    assert!(matches!(err, ParseError::KeyValueTokensIncorrect(1)));
}

#[test]
fn identity_parser_paths() {
    let mut parser = IdentityParser::new(
        names(vec!["data"]),
        true,
        KeyGenerationPolicy::AlwaysAutogenerate,
        SessionType::Native,
    );
    let ev = clean(parser.parse(&raw(DataEventType::Insert, " hi ")).unwrap());
    assert_eq!(
        ev,
        vec![ParsedEvent::Insert((None, vec![Value::String("hi".to_string())]))]
    );
    assert_eq!(
        parser.parse(&raw(DataEventType::Insert, "*COMMIT*")).unwrap(),
        vec![ParsedEventWithErrors::AdvanceTime]
    );
    let err = parser
        .parse(&ReaderContext::KeyValue(None, None))
        .unwrap_err();
    assert!(matches!(err, ParseError::EmptyKafkaPayload));
    let err2 = parser
        .parse(&ReaderContext::TokenizedEntries(DataEventType::Insert, vec![]))
        .unwrap_err();
    assert!(matches!(err2, ParseError::UnsupportedReaderContext));
}

#[test]
fn identity_parser_bytes_and_keys() {
    let mut parser = IdentityParser::new(
        names(vec!["data"]),
        false,
        KeyGenerationPolicy::PreferMessageKey,
        SessionType::Native,
    );
    let ctx = ReaderContext::KeyValue(Some(b"k1".to_vec()), Some(vec![0xFF, 0x01]));
    let ev = clean(parser.parse(&ctx).unwrap());
    assert_eq!(
        ev,
        vec![ParsedEvent::Insert((
            Some(vec![Value::Bytes(b"k1".to_vec())]),
            vec![Value::Bytes(vec![0xFF, 0x01])]
        ))]
    );
    // The commit marker works in bytes form too.
    assert_eq!(
        parser.parse(&raw(DataEventType::Insert, "*COMMIT*")).unwrap(),
        vec![ParsedEventWithErrors::AdvanceTime]
    );
}

#[test]
fn identity_parser_utf8_failure_lands_in_the_cell() {
    let mut parser = IdentityParser::new(
        names(vec!["data"]),
        true,
        KeyGenerationPolicy::AlwaysAutogenerate,
        SessionType::Native,
    );
    let evs = parser
        .parse(&ReaderContext::RawBytes(DataEventType::Insert, vec![0xFF, 0xFE]))
        .unwrap();
    let err = evs
        .into_iter()
        .next()
        .unwrap()
        .remove_errors(ErrorRemovalLogic::FailOnError)
        .unwrap_err();
    assert!(matches!(err, ParseError::Utf8DecodeFailed));
}

#[test]
fn identity_parser_metadata_column() {
    let mut parser = IdentityParser::new(
        names(vec!["data", "_metadata"]),
        true,
        KeyGenerationPolicy::AlwaysAutogenerate,
        SessionType::Native,
    );
    parser.on_new_source_started(&Some(JsonValue::Str("src1".to_string())));
    let ev = clean(parser.parse(&raw(DataEventType::Insert, "p")).unwrap());
    assert_eq!(
        ev,
        vec![ParsedEvent::Insert((
            None,
            vec![
                Value::String("p".to_string()),
                Value::Json(JsonValue::Str("src1".to_string())),
            ]
        ))]
    );
}

#[test]
fn transparent_parser_rows() {
    let schema = schema_of(vec![
        ("a", Type::Int, None),
        ("b", Type::Int, Some(Value::Int(10))),
        ("c", Type::Int, None),
    ]);
    let mut parser = TransparentParser::new(
        None,
        names(vec!["a", "b", "c"]),
        schema,
        SessionType::Native,
    )
    .unwrap();
    let vals = DiffValues {
        commit: false,
        entries: vec![DiffEntry { name: "a".to_string(), value: Ok(Value::Int(1)) }],
    };
    let evs = parser
        .parse(&ReaderContext::Diff(DataEventType::Insert, None, vals))
        .unwrap();
    let err = evs
        .into_iter()
        .next()
        .unwrap()
        .remove_errors(ErrorRemovalLogic::FailOnError)
        .unwrap_err();
    match err {
        ParseError::NoDefault { field_name } => assert_eq!(field_name, "c"),
        other => panic!("unexpected error {other:?}"),
    }
    let vals2 = DiffValues {
        commit: false,
        entries: vec![
            DiffEntry { name: "a".to_string(), value: Ok(Value::Int(1)) },
            DiffEntry { name: "c".to_string(), value: Ok(Value::Int(3)) },
        ],
    };
    let ev = clean(
        parser
            .parse(&ReaderContext::Diff(DataEventType::Insert, None, vals2))
            .unwrap(),
    );
    assert_eq!(
        ev,
        vec![ParsedEvent::Insert((
            None,
            vec![Value::Int(1), Value::Int(10), Value::Int(3)]
        ))]
    );
    let commit = DiffValues { commit: true, entries: vec![] };
    assert_eq!(
        parser
            .parse(&ReaderContext::Diff(DataEventType::Insert, None, commit))
            .unwrap(),
        vec![ParsedEventWithErrors::AdvanceTime]
    );
}

#[test]
fn transparent_parser_supplied_key_wins() {
    let schema = schema_of(vec![("a", Type::Int, None)]);
    let mut parser =
        TransparentParser::new(Some(names(vec!["a"])), names(vec!["a"]), schema, SessionType::Native)
            .unwrap();
    let vals = DiffValues {
        commit: false,
        entries: vec![DiffEntry { name: "a".to_string(), value: Ok(Value::Int(1)) }],
    };
    let ev = clean(
        parser
            .parse(&ReaderContext::Diff(DataEventType::Insert, Some(key_of(77)), vals))
            .unwrap(),
    );
    assert_eq!(
        ev,
        vec![ParsedEvent::Insert((
            Some(vec![Value::Pointer(key_of(77))]),
            vec![Value::Int(1)]
        ))]
    );
}

#[test]
fn single_column_formatter() {
    let mut fmt = SingleColumnFormatter::new(1);
    let vals = vec![Value::Int(0), Value::String("payload".to_string())];
    let ctx = fmt.format(&key_of(4), &vals, 2, 1).unwrap();
    assert_eq!(ctx.payloads, vec![b"payload".to_vec()]);
    assert_eq!(ctx.values, vals);
    let mut fmt2 = SingleColumnFormatter::new(0);
    let ctx2 = fmt2
        .format(&key_of(4), &vec![Value::Bytes(vec![9, 9])], 2, 1)
        .unwrap();
    assert_eq!(ctx2.payloads, vec![vec![9, 9]]);
    let err = fmt2.format(&key_of(4), &vec![Value::Int(1)], 2, 1).unwrap_err();
    assert!(matches!(err, FormatterError::UnsupportedValueType));
    let mut fmt3 = SingleColumnFormatter::new(5);
    let err2 = fmt3.format(&key_of(4), &vec![Value::Int(1)], 2, 1).unwrap_err();
    assert!(matches!(err2, FormatterError::IncorrectColumnIndex));
}

#[test]
fn null_and_identity_formatters() {
    let mut nf = NullFormatter::new();
    let ctx = nf.format(&key_of(3), &vec![Value::Int(1)], 1, 1).unwrap();
    assert!(ctx.payloads.is_empty());
    assert!(ctx.values.is_empty());
    let mut idf = IdentityFormatter::new();
    let vals = vec![Value::Int(1), Value::Bool(false)];
    let ctx2 = idf.format(&key_of(3), &vals, 1, -1).unwrap();
    assert_eq!(ctx2.payloads, vec![Vec::<u8>::new()]);
    assert_eq!(ctx2.values, vals);
    assert_eq!(ctx2.diff, -1);
}

#[test]
fn psql_updates_formatter_statement() {
    let mut fmt = PsqlUpdatesFormatter::new("t1".to_string(), names(vec!["c1", "c2"]));
    let ctx = fmt
        .format(&key_of(1), &vec![Value::Int(1), Value::Int(2)], 60, 1)
        .unwrap();
    assert_eq!(
        String::from_utf8(ctx.payloads[0].clone()).unwrap(),
        "INSERT INTO t1 (c1,c2,time,diff) VALUES ($1,$2,60,1)\n"
    );
    let err = fmt.format(&key_of(1), &vec![Value::Int(1)], 60, 1).unwrap_err();
    assert!(matches!(err, FormatterError::ColumnsValuesCountMismatch));
}

#[test]
fn psql_snapshot_formatter_statement() {
    let fmt = PsqlSnapshotFormatter::new(
        "t2".to_string(),
        names(vec!["k"]),
        names(vec!["k", "v"]),
        None,
    );
    let mut fmt = fmt.unwrap();
    let ctx = fmt
        .format(&key_of(1), &vec![Value::Int(7), Value::Int(8)], 3, 1)
        .unwrap();
    let sql = String::from_utf8(ctx.payloads[0].clone()).unwrap();
    assert!(sql.starts_with("INSERT INTO t2 (k,v, time, diff)VALUES ($1,$2, 3, 1)"));
    assert!(sql.contains("ON CONFLICT DO UPDATE SET k=excluded.k,v=excluded.v, time=3, diff=1"));
    assert!(sql.contains("WHERE t2.k=$1 AND (t2.time<3 OR (t2.time=3 AND t2.diff=-1))"));
}

#[test]
fn psql_snapshot_formatter_custom_expression() {
    let custom = StrMap {
        entries: vec![StrEntry { name: "v".to_string(), path: "md5($?)".to_string() }],
    };
    let mut fmt = PsqlSnapshotFormatter::new(
        "t3".to_string(),
        names(vec!["k"]),
        names(vec!["k", "v"]),
        Some(custom),
    )
    .unwrap();
    let ctx = fmt
        .format(&key_of(1), &vec![Value::Int(7), Value::Int(8)], 3, 1)
        .unwrap();
    let sql = String::from_utf8(ctx.payloads[0].clone()).unwrap();
    assert!(sql.contains("VALUES ($1,md5($2), 3, 1)"));
}

#[test]
fn psql_snapshot_formatter_config_errors() {
    let err = PsqlSnapshotFormatter::new(
        "t".to_string(),
        names(vec!["k"]),
        names(vec!["a", "a"]),
        None,
    )
    .unwrap_err();
    match err {
        PsqlSnapshotFormatterError::RepeatedValueField(n) => assert_eq!(n, "a"),
        other => panic!("unexpected error {other:?}"),
    }
    let err2 = PsqlSnapshotFormatter::new(
        "t".to_string(),
        names(vec!["zz"]),
        names(vec!["a", "b"]),
        None,
    )
    .unwrap_err();
    match err2 {
        PsqlSnapshotFormatterError::UnknownKey(n) => assert_eq!(n, "zz"),
        other => panic!("unexpected error {other:?}"),
    }
}

#[test]
fn parsed_event_helpers() {
    let ev = ParsedEvent::Insert((None, vec![Value::Int(1)]));
    assert_eq!(ev.key(key_of(5)), Some(key_of(5)));
    assert_eq!(ParsedEvent::AdvanceTime.key(key_of(5)), None);
    assert!(ev.snapshot_event(key_of(5)).is_some());
    assert!(ParsedEvent::AdvanceTime.snapshot_event(key_of(5)).is_none());
    assert!(ev.raw_key().is_some());
}

#[test]
fn key_extraction_failure_poisons_event() {
    let schema = schema_of(vec![("k", Type::Int, None), ("v", Type::String, None)]);
    let settings = DsvSettings::new(Some(names(vec!["k"])), names(vec!["k", "v"]), ',');
    let mut parser = DsvParser::new(settings, schema).unwrap();
    parser.parse(&raw(DataEventType::Insert, "k,v")).unwrap();
    let evs = parser.parse(&raw(DataEventType::Insert, "nope,x")).unwrap();
    let err = evs
        .into_iter()
        .next()
        .unwrap()
        .remove_errors(ErrorRemovalLogic::ReplaceErrors)
        .unwrap_err();
    assert!(matches!(err, ParseError::ErrorInKey(_)));
}

#[test]
fn metadata_column_in_delimited_parser() {
    let schema = schema_of(vec![
        ("a", Type::Int, None),
        ("_metadata", Type::Json, None),
    ]);
    let settings = DsvSettings::new(None, names(vec!["a", "_metadata"]), ',');
    let mut parser = DsvParser::new(settings, schema).unwrap();
    parser.on_new_source_started(&Some(JsonValue::Number(JsonNumber {
        as_int: Some(12),
        float_repr: None,
        repr: "12".to_string(),
    })));
    parser.parse(&raw(DataEventType::Insert, "a")).unwrap();
    let ev = clean(parser.parse(&raw(DataEventType::Insert, "4")).unwrap());
    match &ev[0] {
        ParsedEvent::Insert((None, vals)) => {
            assert_eq!(vals[0], Value::Int(4));
            assert!(matches!(&vals[1], Value::Json(JsonValue::Number(n)) if n.as_int == Some(12)));
        }
        other => panic!("unexpected event {other:?}"),
    }
}

#[test]
fn json_object_entries_keep_parse_shape() {
    // The parsed tree feeds back through the serializer used by the
    // JSON-lines formatter.
    let schema = schema_of(vec![("j", Type::Json, None)]);
    let mut parser = JsonLinesParser::new(
        None,
        names(vec!["j"]),
        StrMap::empty(),
        true,
        schema,
        SessionType::Native,
    )
    .unwrap();
    let ev = clean(
        parser
            .parse(&raw(DataEventType::Insert, "{\"j\": {\"b\": [1, null], \"a\": \"z\"}}"))
            .unwrap(),
    );
    let val = match &ev[0] {
        ParsedEvent::Insert((None, vals)) => vals[0].duplicate(),
        other => panic!("unexpected event {other:?}"),
    };
    let mut fmt = JsonLinesFormatter::new(names(vec!["j"]));
    let ctx = fmt.format(&key_of(0), &vec![val], 0, 1).unwrap();
    assert_eq!(
        String::from_utf8(ctx.payloads[0].clone()).unwrap(),
        "{\"j\":{\"a\":\"z\",\"b\":[1,null]},\"diff\":1,\"time\":0}"
    );
}

#[test]
fn delimited_value_display_forms() {
    let settings = DsvSettings::new(None, names(vec!["v"]), '|');
    let mut fmt = DsvFormatter::new(settings);
    let vals = vec![
        (Value::Null, "None"),
        (Value::Bytes(vec![1, 2]), "[1, 2]"),
        (Value::Pointer(key_of(9)), "^9"),
        (Value::Tuple(vec![Value::Int(1), Value::Bool(false)]), "(1, false)"),
        (Value::IntArray(vec![3, 4]), "[3, 4]"),
        (Value::Duration(50), "50"),
        (Value::Json(JsonValue::Null), "null"),
    ];
    for (i, (v, expect)) in vals.into_iter().enumerate() {
        let ctx = fmt.format(&key_of(0), &vec![v], i as u64, 1).unwrap();
        let line = String::from_utf8(ctx.payloads.last().unwrap().clone()).unwrap();
        assert_eq!(line, format!("{expect}|{i}|1"));
    }
}

#[test]
fn debezium_mongo_nested_string_document() {
    let mut parser = DebeziumMessageParser::new(
        Some(names(vec!["_id"])),
        names(vec!["_id", "v"]),
        DebeziumMessageParser::standard_separator(),
        DebeziumDBType::MongoDB,
    );
    // MongoDB nests the after-image as a JSON string.
    let key = "{\"payload\": {\"_id\": \"k\"}}";
    let value =
        "{\"payload\": {\"op\": \"c\", \"after\": \"{\\\"_id\\\": \\\"k\\\", \\\"v\\\": 3}\"}}";
    let ctx = ReaderContext::KeyValue(
        Some(key.as_bytes().to_vec()),
        Some(value.as_bytes().to_vec()),
    );
    let ev = clean(parser.parse(&ctx).unwrap());
    assert_eq!(
        ev,
        vec![ParsedEvent::Upsert((
            Some(vec![Value::String("k".to_string())]),
            Some(vec![Value::String("k".to_string()), Value::Int(3)])
        ))]
    );
}

#[test]
fn jsonlines_key_value_context() {
    let schema = schema_of(vec![("a", Type::Int, None)]);
    let mut parser = JsonLinesParser::new(
        None,
        names(vec!["a"]),
        StrMap::empty(),
        false,
        schema,
        SessionType::Native,
    )
    .unwrap();
    let ctx = ReaderContext::KeyValue(None, Some(b"{\"a\": 6}".to_vec()));
    let ev = clean(parser.parse(&ctx).unwrap());
    assert_eq!(ev, vec![ParsedEvent::Insert((None, vec![Value::Int(6)]))]);
    let err = parser
        .parse(&ReaderContext::KeyValue(None, None))
        .unwrap_err();
    assert!(matches!(err, ParseError::EmptyKafkaPayload));
    let err2 = parser
        .parse(&ReaderContext::TokenizedEntries(DataEventType::Insert, vec![]))
        .unwrap_err();
    assert!(matches!(err2, ParseError::UnsupportedReaderContext));
}

#[test]
fn delimited_empty_and_diff_contexts() {
    let schema = schema_of(vec![("a", Type::Int, None)]);
    let settings = DsvSettings::new(None, names(vec!["a"]), ',');
    let mut parser = DsvParser::new(settings, schema).unwrap();
    assert_eq!(parser.parse(&ReaderContext::Empty).unwrap(), vec![]);
    let vals = DiffValues { commit: false, entries: vec![] };
    let err = parser
        .parse(&ReaderContext::Diff(DataEventType::Insert, None, vals))
        .unwrap_err();
    assert!(matches!(err, ParseError::UnsupportedReaderContext));
    // A raw empty line is skipped.
    assert_eq!(parser.parse(&raw(DataEventType::Insert, "   ")).unwrap(), vec![]);
}

#[test]
fn delimited_integer_grammar() {
    let schema = schema_of(vec![("a", Type::Int, None)]);
    let settings = DsvSettings::new(None, names(vec!["a"]), ',');
    let mut parser = DsvParser::new(settings, schema).unwrap();
    let tok = |t: &str| ReaderContext::TokenizedEntries(DataEventType::Insert, names(vec![t]));
    parser.parse(&tok("a")).unwrap();
    for (input, expect) in [
        ("+5", Some(5i64)),
        ("-9223372036854775808", Some(i64::MIN)),
        ("9223372036854775807", Some(i64::MAX)),
        ("9223372036854775808", None),
        ("1x", None),
        ("", None),
    ] {
        let evs = parser.parse(&tok(input)).unwrap();
        let reduced = evs
            .into_iter()
            .next()
            .unwrap()
            .remove_errors(ErrorRemovalLogic::FailOnError);
        match expect {
            Some(i) => assert_eq!(
                reduced.unwrap(),
                ParsedEvent::Insert((None, vec![Value::Int(i)]))
            ),
            None => assert!(matches!(
                reduced.unwrap_err(),
                ParseError::SchemaNotSatisfied { .. }
            )),
        }
    }
}

#[test]
fn jsonlines_formatter_large_time() {
    let mut fmt = JsonLinesFormatter::new(names(vec!["a"]));
    let big = (i64::MAX as u64) + 1;
    let ctx = fmt.format(&key_of(0), &vec![Value::Int(0)], big, 1).unwrap();
    assert_eq!(
        String::from_utf8(ctx.payloads[0].clone()).unwrap(),
        format!("{{\"a\":0,\"diff\":1,\"time\":{big}}}")
    );
}

#[test]
fn identity_parser_upsert_session() {
    let mut parser = IdentityParser::new(
        names(vec!["data"]),
        true,
        KeyGenerationPolicy::PreferMessageKey,
        SessionType::Upsert,
    );
    assert_eq!(parser.session_type(), SessionType::Upsert);
    let ctx = ReaderContext::Diff(
        DataEventType::Upsert,
        None,
        DiffValues { commit: false, entries: vec![] },
    );
    assert!(parser.parse(&ctx).is_err());
    let ev = clean(
        parser
            .parse(&ReaderContext::RawBytes(DataEventType::Delete, b"gone".to_vec()))
            .unwrap(),
    );
    assert_eq!(ev, vec![ParsedEvent::Upsert((None, None))]);
}

#[test]
fn dsv_formatter_float_array_display() {
    let settings = DsvSettings::new(None, names(vec!["v"]), ',');
    let mut fmt = DsvFormatter::new(settings);
    let v = Value::FloatArray(vec![
        FloatRepr { text: "1.5".to_string() },
        FloatRepr { text: "-2.0".to_string() },
    ]);
    let ctx = fmt.format(&key_of(0), &vec![v], 0, 1).unwrap();
    assert_eq!(
        String::from_utf8(ctx.payloads[1].clone()).unwrap(),
        "[1.5, -2.0],0,1"
    );
}

#[test]
fn non_ascii_text_survives_decode_and_display() {
    let mut parser = IdentityParser::new(
        names(vec!["data"]),
        true,
        KeyGenerationPolicy::AlwaysAutogenerate,
        SessionType::Native,
    );
    let ev = clean(parser.parse(&raw(DataEventType::Insert, "héllo ∞")).unwrap());
    assert_eq!(
        ev,
        vec![ParsedEvent::Insert((
            None,
            vec![Value::String("héllo ∞".to_string())]
        ))]
    );
}
