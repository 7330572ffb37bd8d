use seatunnel::formats::canal_client_json::{
    deserialize, serialize, split_table_identifier, CanalClientConfig, CanalClientEncoder, EncoderError,
};
use seatunnel::formats::client_table::{TableFields, PAIRING_WINDOW_MS};
use seatunnel::formats::client_values::{camel_case_name, convert_field, convert_string, field_to_key, is_java_number};
use seatunnel::formats::zone::{parse_fixed_offset, ServerTz};
use seatunnel::json::Json;
use seatunnel::props::Properties;
use seatunnel::row::{ColumnDef, ColumnType, Field, Row, RowKind, TableSchema};
use serde_json::Value;

fn properties(pairs: &[(&str, &str)]) -> Properties {
    let mut p = Properties::new();
    for (k, v) in pairs {
        p.insert(k.to_string(), v.to_string());
    }
    p
}

fn number(v: &Json) -> i64 {
    v.as_i64().expect("number")
}

fn text(s: &str) -> Json {
    Json::Str(s.to_string())
}

#[test]
fn test_camel_case() {
    assert_eq!(camel_case_name("l_class_student"), "lClassStudent");
    assert_eq!(camel_case_name("users"), "users");
    assert_eq!(camel_case_name("a_b_c"), "aBC");
}

#[test]
fn test_java_number_rules() {
    assert!(is_java_number("0"));
    assert!(is_java_number("1001"));
    assert!(!is_java_number("0123")); // leading zero stays a string
    assert!(!is_java_number("-5"));
    assert!(!is_java_number("1.5"));
    assert!(!is_java_number(""));
    assert!(!is_java_number("12a"));
}

#[test]
fn test_string_conversion_utc() {
    let tz = ServerTz::Utc;
    // Strict date → epoch millis (2024-05-06 07:08:09 UTC).
    let v = convert_string(&tz, "2024-05-06 07:08:09");
    assert_eq!(v, Json::Int(1714979289000i64));
    // Non-strict date stays a string.
    assert_eq!(convert_string(&tz, "2024-05-06"), text("2024-05-06"));
    assert_eq!(convert_string(&tz, "2024-13-40 00:00:00"), text("2024-13-40 00:00:00"));
    // Numbers.
    assert_eq!(convert_string(&tz, "1001"), Json::Int(1001i64));
    assert_eq!(convert_string(&tz, "0123"), text("0123"));
}

#[test]
fn test_string_conversion_respects_server_time_zone() {
    // Same wall-clock time, different zones → different millis.
    let utc_millis = number(&convert_string(&ServerTz::Utc, "2024-05-06 07:08:09"));
    // +08:00: 8 hours earlier in absolute time.
    let cst = convert_string(&ServerTz::parse("+08:00"), "2024-05-06 07:08:09");
    assert_eq!(number(&cst), utc_millis - 8 * 3600 * 1000);
    // IANA name agrees with the fixed offset.
    let shanghai = convert_string(&ServerTz::parse("Asia/Shanghai"), "2024-05-06 07:08:09");
    assert_eq!(number(&shanghai), utc_millis - 8 * 3600 * 1000);
    // Negative offset: -05:00 → 5 hours later in absolute time.
    let ny = convert_string(&ServerTz::parse("-05:00"), "2024-05-06 07:08:09");
    assert_eq!(number(&ny), utc_millis + 5 * 3600 * 1000);
}

#[test]
fn test_server_tz_parse_forms() {
    assert!(matches!(ServerTz::parse(""), ServerTz::Local));
    assert!(matches!(ServerTz::parse("local"), ServerTz::Local));
    assert!(matches!(ServerTz::parse("UTC"), ServerTz::Utc));
    assert!(matches!(ServerTz::parse("+08:00"), ServerTz::Fixed(_)));
    assert!(matches!(ServerTz::parse("Asia/Shanghai"), ServerTz::Named(_)));
    // Bogus values fall back to the local zone.
    assert!(matches!(ServerTz::parse("not-a-zone"), ServerTz::Local));
    // Default is the server-local zone (Java behavior).
    assert!(matches!(ServerTz::default(), ServerTz::Local));
}

#[test]
fn test_datetime_field_uses_configured_zone() {
    let dt = "2024-05-06 07:08:09".to_string();
    let utc = convert_field(&ServerTz::Utc, &Field::DateTime(dt.clone()));
    let cst = convert_field(&ServerTz::parse("+08:00"), &Field::DateTime(dt));
    assert_eq!(number(&cst), number(&utc) - 8 * 3600 * 1000);
}

fn fields_config() -> CanalClientConfig {
    CanalClientConfig {
        database_name: "NewOriental_Data_Recommand".to_string(),
        table_name: "l_class_student".to_string(),
        columns: vec!["id".to_string(), "name".to_string(), "status".to_string(), "other".to_string()],
        tables: vec![(
            "lClassStudent".to_string(),
            TableFields {
                key: "id".to_string(),
                must: properties(&[("id", "id"), ("name", "name")]),
                update: properties(&[("status", "status")]),
            },
        )],
        server_time_zone: "UTC".to_string(),
    }
}

fn row_of(kind: RowKind, id: i64, name: &str, status: i64) -> Row {
    let mut row = Row::new(kind, 4);
    row.set(0, Field::Int64(id));
    row.set(1, Field::String(name.to_string()));
    row.set(2, Field::Int64(status));
    row.set(3, Field::String("ignored".to_string()));
    row
}

#[test]
fn test_encoder_insert_maps_must_and_update_fields() {
    let mut encoder = CanalClientEncoder::new(fields_config()).unwrap();
    let messages = encoder.encode(&row_of(RowKind::Insert, 1001, "张三", 1), 0).unwrap();
    assert_eq!(messages.len(), 1);
    let (key, payload) = (&messages[0].key, &messages[0].payload);
    assert_eq!(key, "1001");
    let json: Value = serde_json::from_str(payload).unwrap();
    assert_eq!(json["dbName"], "neworiental_data_recommand");
    assert_eq!(json["tableName"], "l_class_student");
    assert_eq!(json["eventType"], "insert");
    assert_eq!(json["data"]["id"], 1001);
    assert_eq!(json["data"]["name"], "张三");
    assert_eq!(json["data"]["status"], 1);
    assert!(json["data"].get("other").is_none());
    assert!(json.get("oldData").is_none());
    assert_eq!(json["requestId"].as_str().unwrap().len(), 32);
}

#[test]
fn test_encoder_pairs_delete_insert_into_update() {
    let mut encoder = CanalClientEncoder::new(fields_config()).unwrap();
    // mysql-cdc emits UPDATE as Delete(before) + Insert(after).
    let held = encoder.encode(&row_of(RowKind::Delete, 1001, "李四", 0), 0).unwrap();
    assert!(held.is_empty(), "before-image is held for pairing");
    let messages = encoder.encode(&row_of(RowKind::Insert, 1001, "张三", 0), 0).unwrap();
    assert_eq!(messages.len(), 1);
    let json: Value = serde_json::from_str(&messages[0].payload).unwrap();
    assert_eq!(json["eventType"], "update");
    assert_eq!(json["data"]["name"], "张三");
    assert_eq!(json["oldData"]["name"], "李四");
    // status unchanged (0→0) → not mapped into data, but IS in oldData.
    assert!(json["data"].get("status").is_none());
    assert_eq!(json["oldData"]["status"], 0);
}

#[test]
fn test_encoder_filters_update_without_configured_changes() {
    let mut encoder = CanalClientEncoder::new(fields_config()).unwrap();
    // Only 'other' (not configured) changes between the images.
    encoder.encode(&row_of(RowKind::Delete, 1001, "same", 0), 0).unwrap();
    let messages = encoder.encode(&row_of(RowKind::Insert, 1001, "same", 0), 0).unwrap();
    assert!(messages.is_empty(), "update without configured changes must be filtered");
}

#[test]
fn test_encoder_real_delete_flushes_before_unrelated_insert() {
    let mut encoder = CanalClientEncoder::new(fields_config()).unwrap();
    encoder.encode(&row_of(RowKind::Delete, 7, "gone", 0), 0).unwrap();
    let messages = encoder.encode(&row_of(RowKind::Insert, 1001, "new", 1), 0).unwrap();
    assert_eq!(messages.len(), 2);
    let delete: Value = serde_json::from_str(&messages[0].payload).unwrap();
    assert_eq!(delete["eventType"], "delete");
    assert_eq!(delete["data"]["id"], 7);
    // Delete data carries must fields only (no status).
    assert!(delete["data"].get("status").is_none());
    let insert: Value = serde_json::from_str(&messages[1].payload).unwrap();
    assert_eq!(insert["eventType"], "insert");
}

#[test]
fn test_encoder_flush_emits_trailing_delete() {
    let mut encoder = CanalClientEncoder::new(fields_config()).unwrap();
    encoder.encode(&row_of(RowKind::Delete, 9, "tail", 0), 0).unwrap();
    let flushed = encoder.flush(0);
    assert_eq!(flushed.len(), 1);
    let json: Value = serde_json::from_str(&flushed[0].payload).unwrap();
    assert_eq!(json["eventType"], "delete");
    assert_eq!(json["data"]["id"], 9);
}

fn column(name: &str, t: ColumnType) -> ColumnDef {
    ColumnDef::new(name.to_string(), t)
}

fn auto_schema() -> TableSchema {
    TableSchema::new(
        "neworiental_user.l_class_student".to_string(),
        vec![
            column("id", ColumnType::Int64).primary_key(),
            column("name", ColumnType::String),
            column("status", ColumnType::Int32),
        ],
    )
}

fn auto_config() -> CanalClientConfig {
    CanalClientConfig {
        database_name: "neworiental_user".to_string(),
        table_name: "l_class_student".to_string(),
        columns: Vec::new(), // automatic: derived from the schema
        tables: Vec::new(),
        server_time_zone: "UTC".to_string(),
    }
}

fn delta(key: &str, must: &[(&str, &str)], update: &[(&str, &str)]) -> CanalClientConfig {
    let mut config = auto_config();
    config.tables.push((
        "lClassStudent".to_string(),
        TableFields { key: key.to_string(), must: properties(must), update: properties(update) },
    ));
    config
}

#[test]
fn test_from_schema_auto_maps_all_columns_identity() {
    let mut encoder = CanalClientEncoder::from_schema(auto_config(), &auto_schema()).unwrap();
    // All columns in `must`, no update filter, PK as the key column.
    assert_eq!(encoder.fields().key, "id");
    assert_eq!(encoder.fields().must.len(), 3);
    assert!(encoder.fields().update.is_empty());
    let messages = encoder.encode(&row_of(RowKind::Insert, 7, "张三", 2), 0).unwrap();
    let json: Value = serde_json::from_str(&messages[0].payload).unwrap();
    assert_eq!(json["data"]["id"], 7);
    assert_eq!(json["data"]["name"], "张三");
    assert_eq!(json["data"]["status"], 2);
}

#[test]
fn test_from_schema_delta_entry_merges_over_identity() {
    // The explicit entry defines only the DIFFERENCES from the
    // identity baseline: `status` moves to changed-only, unmentioned
    // columns stay identity always-present, empty `key` falls back
    // to the schema primary key.
    let config = delta("", &[], &[("status", "status")]);
    let mut encoder = CanalClientEncoder::from_schema(config, &auto_schema()).unwrap();
    assert_eq!(encoder.fields().key, "id");
    assert_eq!(encoder.fields().must.len(), 2, "id + name stay in must");
    assert_eq!(encoder.fields().update.len(), 1);

    // INSERT carries every column (changed-only columns included).
    let messages = encoder.encode(&row_of(RowKind::Insert, 7, "张三", 2), 0).unwrap();
    let json: Value = serde_json::from_str(&messages[0].payload).unwrap();
    assert_eq!(json["data"]["id"], 7);
    assert_eq!(json["data"]["name"], "张三");
    assert_eq!(json["data"]["status"], 2);

    // UPDATE touching only `name` (identity must): still emitted,
    // `data` carries the must columns; unchanged `status` stays out
    // of data but appears in oldData.
    encoder.encode(&row_of(RowKind::Delete, 7, "李四", 2), 0).unwrap();
    let messages = encoder.encode(&row_of(RowKind::Insert, 7, "张三", 2), 0).unwrap();
    let json: Value = serde_json::from_str(&messages[0].payload).unwrap();
    assert_eq!(json["eventType"], "update");
    assert_eq!(json["data"]["name"], "张三");
    assert!(json["data"].get("status").is_none());
    assert_eq!(json["oldData"]["status"], 2);

    // UPDATE touching only `status` (changed-only column): emitted
    // with status in data.
    encoder.encode(&row_of(RowKind::Delete, 7, "张三", 2), 0).unwrap();
    let messages = encoder.encode(&row_of(RowKind::Insert, 7, "张三", 5), 0).unwrap();
    let json: Value = serde_json::from_str(&messages[0].payload).unwrap();
    assert_eq!(json["eventType"], "update");
    assert_eq!(json["data"]["status"], 5);
    assert_eq!(json["oldData"]["status"], 2);
}

#[test]
fn test_from_schema_delta_entry_renames_field() {
    // A `must` rename only changes the target field name; the column
    // stays always-present and every other column stays identity.
    let config = delta("name", &[("name", "studentName")], &[]);
    let mut encoder = CanalClientEncoder::from_schema(config, &auto_schema()).unwrap();
    assert_eq!(encoder.fields().key, "name");
    let messages = encoder.encode(&row_of(RowKind::Insert, 7, "张三", 2), 0).unwrap();
    // Partition key is the renamed column's VALUE.
    assert_eq!(messages[0].key, "张三");
    let json: Value = serde_json::from_str(&messages[0].payload).unwrap();
    assert_eq!(json["data"]["studentName"], "张三");
    assert!(json["data"].get("name").is_none(), "renamed away");
    assert_eq!(json["data"]["id"], 7, "unmentioned column identity");
    assert_eq!(json["data"]["status"], 2);
}

#[test]
fn test_from_schema_delta_entry_rejects_unknown_columns() {
    let config = delta("", &[("bogus", "x")], &[]);
    let err = CanalClientEncoder::from_schema(config, &auto_schema()).unwrap_err().message();
    assert!(err.contains("bogus"), "error names the column: {err}");

    let config = delta("nope", &[], &[]);
    let err = CanalClientEncoder::from_schema(config, &auto_schema()).unwrap_err().message();
    assert!(err.contains("nope"), "error names the key: {err}");
}

#[test]
fn test_from_schema_no_pk_falls_back_to_first_column() {
    let schema = TableSchema::new(
        "db.t".to_string(),
        vec![column("code", ColumnType::String), column("value", ColumnType::String)],
    );
    let config = CanalClientConfig {
        database_name: "db".to_string(),
        table_name: "t".to_string(),
        columns: Vec::new(),
        tables: Vec::new(),
        server_time_zone: "UTC".to_string(),
    };
    let encoder = CanalClientEncoder::from_schema(config, &schema).unwrap();
    assert_eq!(encoder.fields().key, "code");
}

#[test]
fn test_from_schema_empty_schema_errors() {
    let schema = TableSchema::new("db.t".to_string(), Vec::new());
    assert!(CanalClientEncoder::from_schema(auto_config(), &schema).is_err());
}

fn second_auto_schema() -> TableSchema {
    TableSchema::new(
        "neworiental_user.l_class_course".to_string(),
        vec![column("cid", ColumnType::Int64).primary_key(), column("title", ColumnType::String)],
    )
}

/// `l_class_student` row carrying its origin identity.
fn origin_row_of(kind: RowKind, id: i64, name: &str, status: i64) -> Row {
    let mut row = row_of(kind, id, name, status);
    row.origin_table = Some("neworiental_user.l_class_student".to_string());
    row
}

/// `l_class_course` row (different column layout) with its origin.
fn course_row_of(kind: RowKind, cid: i64, title: &str) -> Row {
    let mut row = Row::new(kind, 2);
    row.set(0, Field::Int64(cid));
    row.set(1, Field::String(title.to_string()));
    row.origin_table = Some("neworiental_user.l_class_course".to_string());
    row
}

#[test]
fn test_multi_table_auto_registers_and_stamps_identity() {
    let mut encoder = CanalClientEncoder::new_auto(auto_config());
    encoder.register_schema(&auto_schema()).unwrap();
    encoder.register_schema(&second_auto_schema()).unwrap();
    assert_eq!(encoder.registered_tables(), 2);
    // Re-registration (event replay) is idempotent.
    encoder.register_schema(&auto_schema()).unwrap();
    assert_eq!(encoder.registered_tables(), 2);

    // Each row encodes against ITS table's schema and identity.
    let messages = encoder.encode(&origin_row_of(RowKind::Insert, 1001, "张三", 1), 0).unwrap();
    assert_eq!(messages.len(), 1);
    assert_eq!(messages[0].table, "neworiental_user.l_class_student");
    let student: Value = serde_json::from_str(&messages[0].payload).unwrap();
    assert_eq!(student["dbName"], "neworiental_user");
    assert_eq!(student["tableName"], "l_class_student");
    assert_eq!(student["data"]["name"], "张三");

    let messages = encoder.encode(&course_row_of(RowKind::Insert, 7, "math"), 0).unwrap();
    assert_eq!(messages.len(), 1);
    assert_eq!(messages[0].table, "neworiental_user.l_class_course");
    let course: Value = serde_json::from_str(&messages[0].payload).unwrap();
    assert_eq!(course["tableName"], "l_class_course");
    assert_eq!(course["data"]["title"], "math");

    // UPDATE pairs within the same table only.
    let held = encoder.encode(&origin_row_of(RowKind::Delete, 1001, "李四", 0), 0).unwrap();
    assert!(held.is_empty());
    let messages = encoder.encode(&origin_row_of(RowKind::Insert, 1001, "张三", 0), 0).unwrap();
    assert_eq!(messages.len(), 1);
    let update: Value = serde_json::from_str(&messages[0].payload).unwrap();
    assert_eq!(update["tableName"], "l_class_student");
    assert_eq!(update["eventType"], "update");
    assert_eq!(update["oldData"]["name"], "李四");
}

#[test]
fn test_multi_table_same_key_rows_never_cross_pair() {
    let mut encoder = CanalClientEncoder::new_auto(auto_config());
    encoder.register_schema(&auto_schema()).unwrap();
    encoder.register_schema(&second_auto_schema()).unwrap();

    // student delete(id=1) held; a course insert with the SAME key
    // value must NOT pair with it: it stays a plain insert of its
    // own table.
    encoder.encode(&origin_row_of(RowKind::Delete, 1, "gone", 0), 0).unwrap();
    let messages = encoder.encode(&course_row_of(RowKind::Insert, 1, "math"), 0).unwrap();
    assert_eq!(messages.len(), 1);
    let course: Value = serde_json::from_str(&messages[0].payload).unwrap();
    assert_eq!(course["tableName"], "l_class_course");
    assert_eq!(
        course["eventType"], "insert",
        "same key on another table must not pair into an update"
    );

    // The held student before-image still pairs with its own table's
    // after-image afterwards.
    let messages = encoder.encode(&origin_row_of(RowKind::Insert, 1, "renamed", 0), 0).unwrap();
    assert_eq!(messages.len(), 1);
    let update: Value = serde_json::from_str(&messages[0].payload).unwrap();
    assert_eq!(update["eventType"], "update");
    assert_eq!(update["tableName"], "l_class_student");
}

#[test]
fn test_multi_table_flush_and_expire_carry_each_table() {
    let mut encoder = CanalClientEncoder::new_auto(auto_config());
    encoder.register_schema(&auto_schema()).unwrap();
    encoder.register_schema(&second_auto_schema()).unwrap();

    // Leave one unpaired before-image per table.
    encoder.encode(&origin_row_of(RowKind::Delete, 9, "tail-student", 0), 0).unwrap();
    encoder.encode(&course_row_of(RowKind::Delete, 3, "tail-course"), 0).unwrap();

    let flushed = encoder.flush(0);
    assert_eq!(flushed.len(), 2, "one trailing delete per table");
    let tables: Vec<&str> = flushed.iter().map(|m| m.table.as_str()).collect();
    assert!(tables.contains(&"neworiental_user.l_class_student"));
    assert!(tables.contains(&"neworiental_user.l_class_course"));
    for message in &flushed {
        let json: Value = serde_json::from_str(&message.payload).unwrap();
        assert_eq!(json["eventType"], "delete");
    }
}

#[test]
fn test_explicit_encoder_rejects_foreign_table_row() {
    let mut encoder = CanalClientEncoder::new(fields_config()).unwrap();
    // Without origin the row belongs to the configured table.
    assert!(encoder.encode(&row_of(RowKind::Insert, 1, "a", 0), 0).is_ok());
    // With a foreign origin it must fail loudly instead of being
    // stamped with the wrong identity.
    let mut foreign = row_of(RowKind::Insert, 1, "a", 0);
    foreign.origin_table = Some("other_db.other_table".to_string());
    let err = encoder.encode(&foreign, 0).unwrap_err().message();
    assert!(err.contains("other_db.other_table"), "error names the foreign table: {err}");
    // Case differences are tolerated (binlog vs config spelling).
    let mut casing = row_of(RowKind::Insert, 1, "a", 0);
    casing.origin_table = Some("NEWORIENTAL_DATA_RECOMMAND.L_CLASS_STUDENT".to_string());
    assert!(encoder.encode(&casing, 0).is_ok());
}

#[test]
fn test_auto_row_from_unregistered_table_errors() {
    let mut encoder = CanalClientEncoder::new_auto(auto_config());
    let err = encoder.encode(&origin_row_of(RowKind::Insert, 1, "a", 0), 0).unwrap_err().message();
    assert!(err.contains("neworiental_user.l_class_student"), "error names the table: {err}");
}

#[test]
fn test_stateless_serialize_stamps_origin() {
    let mut row = row_of(RowKind::Insert, 1, "a", 0);
    row.origin_table = Some("MyDb.MyTable".to_string());
    let bytes = serialize(&auto_schema(), &row).unwrap();
    let json: Value = serde_json::from_slice(&bytes).unwrap();
    assert_eq!(json["dbName"], "mydb");
    assert_eq!(json["tableName"], "mytable");
}

#[test]
fn every_encoder_error_has_its_cause() {
    let mut config = fields_config();
    config.tables.clear();
    assert!(matches!(CanalClientEncoder::new(config), Err(EncoderError::NoMapping(_))));
    let mut config = fields_config();
    config.tables[0].1.must = Properties::new();
    config.tables[0].1.update = Properties::new();
    assert!(matches!(CanalClientEncoder::new(config), Err(EncoderError::EmptyMapping(_))));
    let mut encoder = CanalClientEncoder::new_auto(auto_config());
    assert!(matches!(encoder.encode(&row_of(RowKind::Insert, 1, "a", 0), 0), Err(EncoderError::NoSchemaYet)));
    assert!(matches!(
        encoder.encode(&origin_row_of(RowKind::Insert, 1, "a", 0), 0),
        Err(EncoderError::UnregisteredTable(_))
    ));
    let empty = TableSchema::new("db.t".to_string(), Vec::new());
    assert!(matches!(encoder.register_schema(&empty), Err(EncoderError::EmptySchema(_))));
    assert!(matches!(
        CanalClientEncoder::from_schema(delta("", &[("bogus", "x")], &[]), &auto_schema()),
        Err(EncoderError::UnknownColumn { .. })
    ));
    assert!(matches!(
        CanalClientEncoder::from_schema(delta("nope", &[], &[]), &auto_schema()),
        Err(EncoderError::UnknownKey { .. })
    ));
    let mut encoder = CanalClientEncoder::new(fields_config()).unwrap();
    let mut foreign = row_of(RowKind::Insert, 1, "a", 0);
    foreign.origin_table = Some("x.y".to_string());
    assert!(matches!(encoder.encode(&foreign, 0), Err(EncoderError::ForeignTable { .. })));
}

#[test]
fn a_held_image_expires() {
    let mut encoder = CanalClientEncoder::new(fields_config()).unwrap();
    encoder.encode(&row_of(RowKind::Delete, 9, "tail", 0), 1_000).unwrap();
    assert!(encoder.expire_pending(1_000 + PAIRING_WINDOW_MS - 1).is_empty());
    let expired = encoder.expire_pending(1_000 + PAIRING_WINDOW_MS + 1);
    assert_eq!(expired.len(), 1);
    assert!(encoder.flush(9_999_999).is_empty());
}

#[test]
fn request_ids_are_hexadecimal_and_differ() {
    let mut encoder = CanalClientEncoder::new(fields_config()).unwrap();
    let mut ids = Vec::new();
    for _ in 0..2 {
        let m = encoder.encode(&row_of(RowKind::Insert, 1, "a", 0), 0).unwrap();
        let v: Value = serde_json::from_str(&m[0].payload).unwrap();
        ids.push(v["requestId"].as_str().unwrap().to_string());
    }
    assert!(ids[0].chars().all(|c| c.is_ascii_hexdigit() && !c.is_ascii_uppercase()));
    assert_ne!(ids[0], ids[1]);
}

#[test]
fn identifiers_and_offsets_are_split() {
    assert_eq!(split_table_identifier("db.t"), ("db".to_string(), "t".to_string()));
    assert_eq!(parse_fixed_offset("+08:00"), Some(28_800));
    assert_eq!(parse_fixed_offset("-0530"), Some(-19_800));
    assert_eq!(parse_fixed_offset("+08"), Some(28_800));
    assert_eq!(parse_fixed_offset("08:00"), None);
    assert_eq!(field_to_key(&Field::Int64(7)), "7");
    // Longer numbers than an integer holds stay what they are.
    assert!(matches!(convert_string(&ServerTz::Utc, "99999999999999999999999"), Json::Str(_) | Json::Float(_)));
}

#[test]
fn client_messages_are_read() {
    let bytes = serialize(&auto_schema(), &row_of(RowKind::Insert, 3, "n", 4)).unwrap();
    let rows = deserialize(&bytes, &auto_schema()).unwrap();
    assert_eq!(rows.len(), 1);
    assert_eq!(*rows[0].get(0), Field::Int64(3));
}

#[test]
fn a_fixed_offset_maps_what_is_a_date() {
    let east = ServerTz::Fixed(3600);
    assert_eq!(east.naive_to_millis(0), Some(-3_600_000));
    assert_eq!(ServerTz::Fixed(-3600).naive_to_millis(5), Some(3_600_005));
    // The first and the last moment that there is a date for.
    assert_eq!(ServerTz::Fixed(0).naive_to_millis(-8_334_601_228_800_000), Some(-8_334_601_228_800_000));
    assert_eq!(ServerTz::Fixed(0).naive_to_millis(8_210_266_876_799_999), Some(8_210_266_876_799_999));
    assert_eq!(ServerTz::Fixed(0).naive_to_millis(-8_334_601_228_800_001), None);
    assert_eq!(ServerTz::Fixed(0).naive_to_millis(8_210_266_876_800_000), None);
    // What would be mapped beyond them.
    assert_eq!(east.naive_to_millis(-8_334_601_228_800_000), None);
    assert_eq!(ServerTz::Fixed(-1).naive_to_millis(8_210_266_876_799_999), None);
    assert_eq!(ServerTz::Fixed(86_400).naive_to_millis(0), None);
    assert_eq!(ServerTz::Fixed(-86_399).naive_to_millis(0), Some(86_399_000));
}

#[test]
fn a_zero_that_changes_its_sign_is_no_change() {
    let mut encoder = CanalClientEncoder::new(fields_config()).unwrap();
    let image = |kind, status: &str| {
        let mut row = row_of(kind, 1001, "same", 0);
        row.set(2, Field::Float64(status.to_string()));
        row
    };
    assert!(encoder.encode(&image(RowKind::Delete, "0"), 0).unwrap().is_empty());
    assert!(encoder.encode(&image(RowKind::Insert, "-0"), 0).unwrap().is_empty());
    assert!(encoder.encode(&image(RowKind::Delete, "0"), 0).unwrap().is_empty());
    assert_eq!(encoder.encode(&image(RowKind::Insert, "0.5"), 0).unwrap().len(), 1);
}

#[test]
fn registering_a_table_keeps_the_configuration() {
    let mut encoder = CanalClientEncoder::new_auto(auto_config());
    encoder.register_schema(&auto_schema()).unwrap();
    assert_eq!(encoder.config().database_name, "neworiental_user");
    assert_eq!(encoder.config().server_time_zone, "UTC");
}
