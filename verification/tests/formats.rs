use seatunnel::formats::error::FormatError;
use seatunnel::formats::{
    avro, binary, canal_json, compatible_debezium_json, compatible_kafka_connect_json, debezium_json, json,
    maxwell_json, native, ogg_json, protobuf, text, MessageFormat,
};
use seatunnel::formats::{deserialize_all, serialize as serialize_as, value_to_row};
use seatunnel::json::Json;
use seatunnel::row::{ColumnDef, ColumnType, Field, Row, RowKind, TableSchema};

fn schema(table: &str) -> TableSchema {
    TableSchema::new(
        table.to_string(),
        vec![
            ColumnDef::new("id".to_string(), ColumnType::Int64),
            ColumnDef::new("name".to_string(), ColumnType::String),
        ],
    )
}

fn row(kind: RowKind, id: i64, name: &str) -> Row {
    let mut row = Row::new(kind, 2);
    row.set(0, Field::Int64(id));
    row.set(1, Field::String(name.to_string()));
    row
}

#[test]
fn test_avro_roundtrip() {
    let schema = schema("t");
    let row = row(RowKind::Insert, 42, "hello");
    let bytes = avro::serialize(&schema, &row).unwrap();
    assert_eq!(bytes[0], 0x00);
    let decoded = avro::deserialize(&bytes, &schema).unwrap();
    assert_eq!(*decoded.get(0), Field::Int64(42));
    assert_eq!(*decoded.get(1), Field::String("hello".to_string()));
}

#[test]
fn test_avro_invalid() {
    assert!(avro::deserialize(b"sh", &schema("t")).is_err());
}

#[test]
fn test_canal_insert() {
    let rows = canal_json::deserialize(
        b"{\"_type\":\"INSERT\",\"_ts\":1000,\"data\":[{\"id\":1,\"name\":\"alice\"}]}",
        &schema("users"),
    )
    .unwrap();
    assert_eq!(rows.len(), 1);
    let row = &rows[0];
    assert_eq!(row.kind, RowKind::Insert);
    assert_eq!(*row.get(0), Field::Int64(1));
}

#[test]
fn test_canal_update() {
    let rows = canal_json::deserialize(
        b"{\"_type\":\"UPDATE\",\"data\":[{\"id\":1,\"name\":\"new\"}],\"old\":[{\"id\":1,\"name\":\"old\"}]}",
        &schema("users"),
    )
    .unwrap();
    assert_eq!(rows.len(), 2);
    assert_eq!(rows[0].kind, RowKind::UpdateBefore);
    assert_eq!(rows[1].kind, RowKind::UpdateAfter);
}

#[test]
fn test_canal_delete() {
    let rows = canal_json::deserialize(b"{\"_type\":\"DELETE\",\"data\":[{\"id\":2}]}", &schema("users")).unwrap();
    assert_eq!(rows.len(), 1);
    let row = &rows[0];
    assert_eq!(row.kind, RowKind::Delete);
}

#[test]
fn test_roundtrip() {
    let rows =
        compatible_debezium_json::deserialize(b"{\"id\":42,\"name\":\"hello\"}", &schema("t")).unwrap();
    let row = &rows[0];
    assert_eq!(*row.get(0), Field::Int64(42));
    assert_eq!(*row.get(1), Field::String("hello".to_string()));
}

#[test]
fn test_deserialize() {
    let row = compatible_kafka_connect_json::deserialize(
        b"{\"schema\":{},\"payload\":{\"id\":42,\"name\":\"hello\"}}",
        &schema("t"),
    )
    .unwrap();
    assert_eq!(*row.get(0), Field::Int64(42));
}

#[test]
fn test_null_payload() {
    let row =
        compatible_kafka_connect_json::deserialize(b"{\"schema\":{},\"payload\":null}", &schema("t")).unwrap();
    assert!(row.get(0).is_null());
}

#[test]
fn test_debezium_insert() {
    let rows = debezium_json::deserialize(
        b"{\"before\":null,\"after\":{\"id\":1,\"name\":\"a\"},\"op\":\"c\",\"source\":{},\"ts_ms\":1000}",
        &schema("t"),
    )
    .unwrap();
    assert_eq!(rows.len(), 1);
    let row = &rows[0];
    assert_eq!(row.kind, RowKind::Insert);
    assert_eq!(*row.get(0), Field::Int64(1));
}

#[test]
fn test_debezium_update() {
    let rows = debezium_json::deserialize(
        b"{\"before\":{\"id\":1,\"name\":\"old\"},\"after\":{\"id\":1,\"name\":\"new\"},\"op\":\"u\"}",
        &schema("t"),
    )
    .unwrap();
    assert_eq!(rows.len(), 2);
    assert_eq!(rows[0].kind, RowKind::UpdateBefore);
    assert_eq!(rows[1].kind, RowKind::UpdateAfter);
    assert_eq!(*rows[0].get(1), Field::String("old".to_string()));
    assert_eq!(*rows[1].get(1), Field::String("new".to_string()));
}

#[test]
fn test_debezium_delete() {
    let rows =
        debezium_json::deserialize(b"{\"before\":{\"id\":2},\"after\":null,\"op\":\"d\"}", &schema("t")).unwrap();
    assert_eq!(rows.len(), 1);
    let row = &rows[0];
    assert_eq!(row.kind, RowKind::Delete);
}

fn three_columns() -> TableSchema {
    TableSchema::new(
        "t".to_string(),
        vec![
            ColumnDef::new("id".to_string(), ColumnType::Int64),
            ColumnDef::new("name".to_string(), ColumnType::String),
            ColumnDef::new("active".to_string(), ColumnType::Bool),
        ],
    )
}

#[test]
fn test_json_deserialize() {
    let schema = three_columns();
    let row = json::deserialize(b"{\"id\":42,\"name\":\"hello\",\"active\":true}", &schema).unwrap();
    assert_eq!(*row.get(0), Field::Int64(42));
    assert_eq!(*row.get(1), Field::String("hello".to_string()));
    assert_eq!(*row.get(2), Field::Bool(true));
}

#[test]
fn test_json_roundtrip() {
    let schema = three_columns();
    let mut row = Row::new(RowKind::Insert, 3);
    row.set(0, Field::Int64(99));
    row.set(1, Field::String("world".to_string()));
    row.set(2, Field::Bool(false));
    let bytes = json::serialize(&schema, &row).unwrap();
    let value: serde_json::Value = serde_json::from_slice(&bytes).unwrap();
    assert_eq!(value["id"].as_i64(), Some(99));
    assert_eq!(value["name"].as_str(), Some("world"));
}

#[test]
fn test_maxwell_insert() {
    let bytes = b"{\"database\":\"test\",\"table\":\"users\",\"type\":\"insert\",\"ts\":1000,\"data\":{\"id\":1,\"name\":\"alice\"}}";
    let rows = maxwell_json::deserialize(bytes, &schema("users")).unwrap();
    assert_eq!(rows.len(), 1);
    assert_eq!(rows[0].kind, RowKind::Insert);
    assert_eq!(*rows[0].get(0), Field::Int64(1));
}

#[test]
fn test_maxwell_update() {
    let bytes = b"{\"database\":\"test\",\"table\":\"users\",\"type\":\"update\",\"ts\":1000,\"data\":{\"id\":1,\"name\":\"new\"},\"old\":{\"id\":1,\"name\":\"old\"}}";
    let rows = maxwell_json::deserialize(bytes, &schema("users")).unwrap();
    assert_eq!(rows.len(), 2);
    assert_eq!(rows[0].kind, RowKind::UpdateBefore);
    assert_eq!(rows[1].kind, RowKind::UpdateAfter);
}

#[test]
fn test_maxwell_delete() {
    let bytes = b"{\"database\":\"test\",\"table\":\"users\",\"type\":\"delete\",\"ts\":1000,\"data\":{\"id\":2}}";
    let rows = maxwell_json::deserialize(bytes, &schema("users")).unwrap();
    assert_eq!(rows.len(), 1);
    assert_eq!(rows[0].kind, RowKind::Delete);
}

#[test]
fn test_native_roundtrip() {
    let schema = TableSchema::new(
        "kafka".to_string(),
        vec![
            ColumnDef::new("topic".to_string(), ColumnType::String),
            ColumnDef::new("offset".to_string(), ColumnType::Int64),
        ],
    );
    let rows = native::deserialize(b"{\"topic\":\"t1\",\"offset\":12345}", &schema).unwrap();
    let row = &rows[0];
    assert_eq!(*row.get(0), Field::String("t1".to_string()));
    assert_eq!(*row.get(1), Field::Int64(12345));
}

#[test]
fn test_ogg_insert() {
    let rows = ogg_json::deserialize(
        b"{\"OP_TYPE\":\"INSERT\",\"COLUMN_NAME\":[\"id\",\"name\"],\"AFTER_VALUE\":[1,\"alice\"]}",
        &schema("users"),
    )
    .unwrap();
    let row = &rows[0];
    assert_eq!(row.kind, RowKind::Insert);
    assert_eq!(*row.get(0), Field::Int64(1));
}

#[test]
fn test_ogg_update() {
    let rows = ogg_json::deserialize(
        b"{\"OP_TYPE\":\"UPDATE\",\"COLUMN_NAME\":[\"id\",\"name\"],\"BEFORE_VALUE\":[1,\"old\"],\"AFTER_VALUE\":[1,\"new\"]}",
        &schema("users"),
    )
    .unwrap();
    assert_eq!(rows.len(), 2);
    assert_eq!(rows[0].kind, RowKind::UpdateBefore);
    assert_eq!(rows[1].kind, RowKind::UpdateAfter);
    assert_eq!(*rows[0].get(1), Field::String("old".to_string()));
    assert_eq!(*rows[1].get(1), Field::String("new".to_string()));
}

#[test]
fn test_ogg_delete() {
    let rows = ogg_json::deserialize(
        b"{\"OP_TYPE\":\"DELETE\",\"COLUMN_NAME\":[\"id\",\"name\"],\"BEFORE_VALUE\":[2,\"bob\"]}",
        &schema("users"),
    )
    .unwrap();
    assert_eq!(rows.len(), 1);
    assert_eq!(rows[0].kind, RowKind::Delete);
    assert_eq!(*rows[0].get(0), Field::Int64(2));
}

#[test]
fn test_ogg_lowercase_op() {
    // OP_TYPE value is lowercase but keys are uppercase (OGG standard)
    let rows = ogg_json::deserialize(
        b"{\"OP_TYPE\":\"update\",\"COLUMN_NAME\":[\"id\"],\"BEFORE_VALUE\":[1],\"AFTER_VALUE\":[2]}",
        &schema("users"),
    )
    .unwrap();
    assert_eq!(rows.len(), 2);
    assert_eq!(rows[0].kind, RowKind::UpdateBefore);
    assert_eq!(rows[1].kind, RowKind::UpdateAfter);
}

#[test]
fn test_protobuf_roundtrip() {
    let schema = schema("t");
    let row = row(RowKind::Insert, 42, "hello");
    let bytes = protobuf::serialize(&schema, &row).unwrap();
    let rows = protobuf::deserialize(&bytes, &schema).unwrap();
    assert_eq!(*rows[0].get(0), Field::Int64(42));
    assert_eq!(*rows[0].get(1), Field::String("hello".to_string()));
}

#[test]
fn test_text_roundtrip() {
    let schema = schema("t");
    let row = row(RowKind::Insert, 7, "test");
    assert_eq!(text::serialize(&schema, &row).unwrap(), b"7|test");
    let decoded = text::deserialize(b"42|hello", &schema).unwrap();
    assert_eq!(*decoded.get(0), Field::Int64(42));
    assert_eq!(*decoded.get(1), Field::String("hello".to_string()));
}

#[test]
fn formats_are_found_by_name() {
    for f in [
        MessageFormat::Json,
        MessageFormat::Text,
        MessageFormat::CanalJson,
        MessageFormat::CanalClientJson,
        MessageFormat::DebeziumJson,
        MessageFormat::CompatibleDebeziumJson,
        MessageFormat::CompatibleKafkaConnectJson,
        MessageFormat::OggJson,
        MessageFormat::MaxwellJson,
        MessageFormat::Avro,
        MessageFormat::Protobuf,
        MessageFormat::Native,
    ] {
        assert_eq!(MessageFormat::from_str(f.name()), Some(f));
        assert_eq!(MessageFormat::from_str(&f.name().to_uppercase()), Some(f));
    }
    assert_eq!(MessageFormat::from_str("csv"), None);
}

#[test]
fn every_format_reads_back_what_it_wrote() {
    let schema = schema("db.t");
    for f in [
        MessageFormat::Json,
        MessageFormat::Text,
        MessageFormat::CanalJson,
        MessageFormat::DebeziumJson,
        MessageFormat::CompatibleDebeziumJson,
        MessageFormat::CompatibleKafkaConnectJson,
        MessageFormat::OggJson,
        MessageFormat::MaxwellJson,
        MessageFormat::Avro,
        MessageFormat::Protobuf,
        MessageFormat::Native,
    ] {
        let bytes = serialize_as(f, &schema, &row(RowKind::Insert, 42, "hello")).unwrap();
        let rows = deserialize_all(f, &bytes, &schema).unwrap();
        assert_eq!(rows.len(), 1, "{}", f.name());
        assert_eq!(*rows[0].get(0), Field::Int64(42), "{}", f.name());
        assert_eq!(*rows[0].get(1), Field::String("hello".to_string()), "{}", f.name());
    }
}

#[test]
fn deletes_are_read_back() {
    let schema = schema("db.t");
    for f in [MessageFormat::CanalJson, MessageFormat::DebeziumJson, MessageFormat::OggJson, MessageFormat::MaxwellJson] {
        let bytes = serialize_as(f, &schema, &row(RowKind::Delete, 1, "x")).unwrap();
        let rows = deserialize_all(f, &bytes, &schema).unwrap();
        assert_eq!(rows[0].kind, RowKind::Delete, "{}", f.name());
    }
}

#[test]
fn messages_without_an_object_are_refused() {
    let s = schema("t");
    assert!(matches!(json::deserialize(b"[]", &s), Err(FormatError::NotAnObject)));
    assert!(matches!(json::deserialize(b"{", &s), Err(FormatError::Json(_))));
    assert!(matches!(native::deserialize(b"1", &s), Err(FormatError::NotAnObject)));
    assert!(matches!(avro::deserialize(b"sh", &s), Err(FormatError::TooShort)));
    assert!(matches!(text::deserialize(b"x|y", &s), Err(FormatError::NotANumber(t)) if t == "x"));
    assert!(matches!(text::deserialize(b"\xff", &s), Err(FormatError::NotUtf8)));
}

#[test]
fn varints_round_trip() {
    for v in [0, 1, 127, 128, 300, u64::MAX] {
        let mut buf = Vec::new();
        binary::write_varint(&mut buf, v);
        assert_eq!(binary::read_varint(&buf, 0).unwrap(), (v, buf.len()));
    }
    let mut buf = Vec::new();
    binary::write_varint(&mut buf, 300);
    assert_eq!(buf, vec![0xac, 0x02]);
    assert!(matches!(binary::read_varint(&[0x80], 0), Err(FormatError::TruncatedVarint)));
    assert!(matches!(binary::read_varint(&[0xff; 12], 0), Err(FormatError::InvalidVarint)));
    let mut le = Vec::new();
    binary::write_le(&mut le, 0x0102_0304, 4);
    assert_eq!(le, vec![4, 3, 2, 1]);
    assert_eq!(binary::read_u32(&le, 0), 0x0102_0304);
}

#[test]
fn canal_stamps_the_given_time() {
    let bytes = canal_json::serialize_at(&schema("t"), &row(RowKind::Insert, 1, "a"), 77).unwrap();
    let v: serde_json::Value = serde_json::from_slice(&bytes).unwrap();
    assert_eq!(v["_ts"], 77);
    assert_eq!(v["_type"], "INSERT");
    // Without a time the message carries the present one.
    let bytes = canal_json::serialize(&schema("t"), &row(RowKind::Insert, 1, "a")).unwrap();
    let v: serde_json::Value = serde_json::from_slice(&bytes).unwrap();
    assert!(v["_ts"].as_i64().unwrap() > 1_600_000_000_000);
}

#[test]
fn numbers_and_texts_are_converted() {
    let s = TableSchema::new(
        "t".to_string(),
        vec![
            ColumnDef::new("f".to_string(), ColumnType::Float64),
            ColumnDef::new("b".to_string(), ColumnType::Bool),
        ],
    );
    let r = text::deserialize(b"1.50|TRUE\n", &s).unwrap();
    assert_eq!(*r.get(0), Field::Float64("1.5".to_string()));
    assert_eq!(*r.get(1), Field::Bool(true));
    let r = json::deserialize(b"{\"f\":2.50,\"b\":null}", &s).unwrap();
    assert_eq!(*r.get(0), Field::Float64("2.5".to_string()));
    assert!(r.get(1).is_null());
    let bytes = json::serialize(&s, &r).unwrap();
    let v: serde_json::Value = serde_json::from_slice(&bytes).unwrap();
    assert_eq!(v["f"], 2.5);
    assert!(v["b"].is_null());
}

#[test]
fn fields_are_shown() {
    assert_eq!(Field::Int64(-3).show(), "-3");
    assert_eq!(Field::Bytes(vec![0x0f, 0xa0]).show(), "0fa0");
    assert_eq!(Field::String("a\"b".to_string()).inspect(), "String(\"a\\\"b\")");
    assert_eq!(Field::Int32(5).as_i64(), Some(5));
    assert_eq!(Field::String("5".to_string()).as_i64(), None);
}

#[test]
fn documents_are_compared_and_found() {
    let j = Json::parse(br#"{"b": [1, -2, 18446744073709551615], "a": {"c": "d"}}"#).unwrap();
    assert_eq!(j.get("a").unwrap().get("c").unwrap().as_str(), Some(&"d".to_string()));
    assert_eq!(*j.get("b").unwrap(), Json::Array(vec![Json::Int(1), Json::Int(-2), Json::UInt(u64::MAX)]));
    assert!(j.same(&j.copy()));
    assert!(Json::parse(b"nope").is_err());
}

#[test]
fn a_double_keeps_every_digit() {
    let schema = TableSchema::new(
        "t".to_string(),
        vec![ColumnDef::new("f".to_string(), ColumnType::Float64)],
    );
    for text in ["31.245270191439438", "121.48791951161945", "100.78399658203125", "0.1"] {
        let exact: f64 = text.parse().unwrap();
        let mut row = Row::new(RowKind::Insert, 1);
        row.set(0, Field::Float64(text.to_string()));
        let bytes = json::serialize(&schema, &row).unwrap();
        let written = String::from_utf8(bytes).unwrap();
        assert_eq!(written, format!("{{\"f\":{}}}", exact));
    }
}

#[test]
fn fields_are_inspected() {
    let float = |t: &str| Field::Float64(t.to_string()).inspect();
    assert_eq!(float("1"), "Float64(1.0)");
    assert_eq!(float("-0.25"), "Float64(-0.25)");
    assert_eq!(float("10000000000000000"), "Float64(1e16)");
    assert_eq!(float("0.00001"), "Float64(1e-5)");
    assert_eq!(float("NaN"), "Float64(NaN)");
    assert_eq!(float("inf"), "Float64(inf)");
    assert_eq!(Field::Float32("2".to_string(), "2".to_string()).inspect(), "Float32(2.0)");
    assert_eq!(
        Field::DateTime("2024-05-06 07:08:09.5".to_string()).inspect(),
        "DateTime(2024-05-06T07:08:09.5)"
    );
}

#[test]
fn the_two_zeros_are_the_same() {
    let list = |text: &[u8]| Json::parse(text).unwrap();
    assert!(list(b"[0.0]").same(&list(b"[-0.0]")));
    assert!(list(br#"{"a": {"b": -0.0}}"#).same(&list(br#"{"a": {"b": 0.0}}"#)));
    assert!(!list(b"[0.0]").same(&list(b"[0.5]")));
    assert!(!list(b"[0.0]").same(&list(b"[0]")));
    assert!(!list(b"[0.0]").same(&list(b"[0.0, 0.0]")));
}

fn typed(types: &[ColumnType]) -> TableSchema {
    let columns = types.iter().enumerate().map(|(i, t)| ColumnDef::new(format!("c{}", i), *t)).collect();
    TableSchema::new("t".to_string(), columns)
}

fn filled(fields: Vec<Field>) -> Row {
    let mut row = Row::new(RowKind::Insert, fields.len());
    for (i, f) in fields.into_iter().enumerate() {
        row.set(i, f);
    }
    row
}

#[test]
fn json_reads_nested_fields_back() {
    let schema = typed(&[ColumnType::String, ColumnType::String, ColumnType::String]);
    let row = filled(vec![
        Field::UInt64(u64::MAX),
        Field::Json(Json::parse(br#"{"k": [1, "two"]}"#).unwrap()),
        Field::Array(vec![
            Field::Int64(-1),
            Field::Array(vec![Field::UInt64(9_223_372_036_854_775_808), Field::Null]),
            Field::Bool(true),
        ]),
    ]);
    let bytes = json::serialize(&schema, &row).unwrap();
    assert_eq!(json::deserialize(&bytes, &schema).unwrap().fields, row.fields);
}

#[test]
fn text_reads_typed_fields_back() {
    let schema = typed(&[
        ColumnType::Int32,
        ColumnType::Bool,
        ColumnType::Bool,
        ColumnType::Date,
        ColumnType::Int64,
        ColumnType::String,
    ]);
    let row = filled(vec![
        Field::Int32(-7),
        Field::Bool(false),
        Field::String("maybe".to_string()),
        Field::String("someday".to_string()),
        Field::Int64(i64::MIN),
        Field::Null,
    ]);
    let bytes = text::serialize(&schema, &row).unwrap();
    assert_eq!(bytes, format!("-7{0}false{0}maybe{0}someday{0}{1}{0}", text::DEFAULT_DELIMITER, i64::MIN).into_bytes());
    assert_eq!(text::deserialize(&bytes, &schema).unwrap().fields, row.fields);
}

#[test]
fn protobuf_reads_texts_back() {
    let schema = typed(&[ColumnType::Bool, ColumnType::Date, ColumnType::Int64, ColumnType::Int64]);
    let row = filled(vec![
        Field::Bool(true),
        Field::String("someday".to_string()),
        Field::String("no number".to_string()),
        Field::Int64(-9),
    ]);
    let bytes = protobuf::serialize(&schema, &row).unwrap();
    let read = protobuf::deserialize(&bytes, &schema).unwrap();
    assert_eq!(read.len(), 1);
    assert_eq!(read[0].fields, row.fields);
}

#[test]
fn documents_become_rows() {
    let schema = schema("t");
    let row = value_to_row(&Json::parse(br#"{"id": 3}"#).unwrap(), &schema).unwrap();
    assert_eq!(row.fields, vec![Field::Int64(3), Field::Null]);
    let none = value_to_row(&Json::parse(b"[1]").unwrap(), &schema).unwrap();
    assert_eq!(none.fields, vec![Field::Null, Field::Null]);
}

#[test]
fn ogg_reads_back_what_it_wrote() {
    let schema = schema("t");
    for kind in [RowKind::Insert, RowKind::UpdateBefore, RowKind::UpdateAfter] {
        let written = row(kind, 4, "four");
        let bytes = ogg_json::serialize(&schema, &written).unwrap();
        let read = ogg_json::deserialize(&bytes, &schema).unwrap();
        assert_eq!(read.len(), 1);
        assert_eq!(read[0].kind, RowKind::Insert);
        assert_eq!(read[0].fields, written.fields);
    }
    let bytes = ogg_json::serialize(&schema, &row(RowKind::Delete, 4, "four")).unwrap();
    let read = ogg_json::deserialize(&bytes, &schema).unwrap();
    assert_eq!(read.len(), 1);
    assert_eq!(read[0].kind, RowKind::Delete);
    assert_eq!(read[0].fields, vec![Field::Null, Field::Null]);
}
