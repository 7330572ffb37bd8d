//! Message formats: rows to and from bytes.

use vstd::prelude::*;

use crate::formats::convert::{field_or_null, json_to_field, Reading};
use crate::formats::error::{FormatError, FormatErrorV};
use crate::json::{Json, JsonV};
use crate::row::{rows_view, ColumnV, Field, Row, RowKind, RowV, SchemaV, TableSchema};

pub mod avro;
pub mod binary;
pub mod canal_client_json;
pub mod canal_json;
pub mod choice_laws;
pub mod client_table;
pub mod client_values;
pub mod compatible_debezium_json;
pub mod compatible_kafka_connect_json;
pub mod convert;
pub mod debezium_json;
pub mod encoder_laws;
pub mod error;
pub mod json;
pub mod maxwell_json;
pub mod message_laws;
pub mod native;
pub mod ogg_json;
pub mod protobuf;
pub mod row_laws;
pub mod text;
pub mod zone;

verus! {

/// A message format.
#[derive(Debug, Clone, Copy, PartialEq, Eq, Structural)]
pub enum MessageFormat {
    Json,
    Text,
    CanalJson,
    CanalClientJson,
    DebeziumJson,
    CompatibleDebeziumJson,
    CompatibleKafkaConnectJson,
    OggJson,
    MaxwellJson,
    Avro,
    Protobuf,
    Native,
}

/// The format that a lower-case name stands for.
pub open spec fn format_named(s: Seq<char>) -> Option<MessageFormat> {
    if s == "json"@ {
        Some(MessageFormat::Json)
    } else if s == "text"@ {
        Some(MessageFormat::Text)
    } else if s == "canal_json"@ || s == "canal-json"@ {
        Some(MessageFormat::CanalJson)
    } else if s == "canal_client_json"@ || s == "canal-client-json"@ || s == "canal_client"@ || s == "canal-client"@ {
        Some(MessageFormat::CanalClientJson)
    } else if s == "debezium_json"@ || s == "debezium-json"@ {
        Some(MessageFormat::DebeziumJson)
    } else if s == "compatible_debezium_json"@ || s == "compatible-debezium-json"@ {
        Some(MessageFormat::CompatibleDebeziumJson)
    } else if s == "compatible_kafka_connect_json"@ || s == "compatible-kafka-connect-json"@ {
        Some(MessageFormat::CompatibleKafkaConnectJson)
    } else if s == "ogg_json"@ || s == "ogg-json"@ {
        Some(MessageFormat::OggJson)
    } else if s == "maxwell_json"@ || s == "maxwell-json"@ {
        Some(MessageFormat::MaxwellJson)
    } else if s == "avro"@ {
        Some(MessageFormat::Avro)
    } else if s == "protobuf"@ {
        Some(MessageFormat::Protobuf)
    } else if s == "native"@ {
        Some(MessageFormat::Native)
    } else {
        None
    }
}

/// The name of a format.
pub open spec fn name_of(f: MessageFormat) -> Seq<char> {
    match f {
        MessageFormat::Json => "JSON"@,
        MessageFormat::Text => "TEXT"@,
        MessageFormat::CanalJson => "CANAL_JSON"@,
        MessageFormat::CanalClientJson => "CANAL_CLIENT_JSON"@,
        MessageFormat::DebeziumJson => "DEBEZIUM_JSON"@,
        MessageFormat::CompatibleDebeziumJson => "COMPATIBLE_DEBEZIUM_JSON"@,
        MessageFormat::CompatibleKafkaConnectJson => "COMPATIBLE_KAFKA_CONNECT_JSON"@,
        MessageFormat::OggJson => "OGG_JSON"@,
        MessageFormat::MaxwellJson => "MAXWELL_JSON"@,
        MessageFormat::Avro => "AVRO"@,
        MessageFormat::Protobuf => "PROTOBUF"@,
        MessageFormat::Native => "NATIVE"@,
    }
}

/// The format that a lower-case name stands for.
pub fn format_of(s: &str) -> (r: Option<MessageFormat>)
    ensures
        r == format_named(s@),
{
    if crate::text::same(s, "json") {
        Some(MessageFormat::Json)
    } else if crate::text::same(s, "text") {
        Some(MessageFormat::Text)
    } else if crate::text::same(s, "canal_json") || crate::text::same(s, "canal-json") {
        Some(MessageFormat::CanalJson)
    } else if crate::text::same(s, "canal_client_json") || crate::text::same(s, "canal-client-json") || crate::text::same(s, "canal_client")
        || crate::text::same(s, "canal-client") {
        Some(MessageFormat::CanalClientJson)
    } else if crate::text::same(s, "debezium_json") || crate::text::same(s, "debezium-json") {
        Some(MessageFormat::DebeziumJson)
    } else if crate::text::same(s, "compatible_debezium_json") || crate::text::same(s, "compatible-debezium-json") {
        Some(MessageFormat::CompatibleDebeziumJson)
    } else if crate::text::same(s, "compatible_kafka_connect_json") || crate::text::same(s, "compatible-kafka-connect-json") {
        Some(MessageFormat::CompatibleKafkaConnectJson)
    } else if crate::text::same(s, "ogg_json") || crate::text::same(s, "ogg-json") {
        Some(MessageFormat::OggJson)
    } else if crate::text::same(s, "maxwell_json") || crate::text::same(s, "maxwell-json") {
        Some(MessageFormat::MaxwellJson)
    } else if crate::text::same(s, "avro") {
        Some(MessageFormat::Avro)
    } else if crate::text::same(s, "protobuf") {
        Some(MessageFormat::Protobuf)
    } else if crate::text::same(s, "native") {
        Some(MessageFormat::Native)
    } else {
        None
    }
}

impl MessageFormat {
    /// The format that a name stands for, whatever its case.
    pub fn from_str(s: &str) -> (r: Option<Self>)
        ensures
            r == format_named(crate::text::lower_text(s@)),
    {
        let lowered = crate::text::to_lower(s);
        format_of(lowered.as_str())
    }

    /// The name of the format.
    pub fn name(&self) -> (r: &'static str)
        ensures
            r@ == name_of(*self),
    {
        match self {
            MessageFormat::Json => "JSON",
            MessageFormat::Text => "TEXT",
            MessageFormat::CanalJson => "CANAL_JSON",
            MessageFormat::CanalClientJson => "CANAL_CLIENT_JSON",
            MessageFormat::DebeziumJson => "DEBEZIUM_JSON",
            MessageFormat::CompatibleDebeziumJson => "COMPATIBLE_DEBEZIUM_JSON",
            MessageFormat::CompatibleKafkaConnectJson => "COMPATIBLE_KAFKA_CONNECT_JSON",
            MessageFormat::OggJson => "OGG_JSON",
            MessageFormat::MaxwellJson => "MAXWELL_JSON",
            MessageFormat::Avro => "AVRO",
            MessageFormat::Protobuf => "PROTOBUF",
            MessageFormat::Native => "NATIVE",
        }
    }
}

/// The name of a format stands for it.
pub proof fn law_names_are_read_back(f: MessageFormat)
    ensures
        format_named(crate::text::lower_text(name_of(f))) == Some(f),
{
    reveal_strlit("json");
    reveal_strlit("text");
    reveal_strlit("canal_json");
    reveal_strlit("canal-json");
    reveal_strlit("canal_client_json");
    reveal_strlit("canal-client-json");
    reveal_strlit("canal_client");
    reveal_strlit("canal-client");
    reveal_strlit("debezium_json");
    reveal_strlit("debezium-json");
    reveal_strlit("compatible_debezium_json");
    reveal_strlit("compatible-debezium-json");
    reveal_strlit("compatible_kafka_connect_json");
    reveal_strlit("compatible-kafka-connect-json");
    reveal_strlit("ogg_json");
    reveal_strlit("ogg-json");
    reveal_strlit("maxwell_json");
    reveal_strlit("maxwell-json");
    reveal_strlit("avro");
    reveal_strlit("protobuf");
    reveal_strlit("native");
    match f {
        MessageFormat::Json => {
            reveal_strlit("JSON");
            assert(crate::text::ascii_lowered("JSON"@) =~= "json"@);
            assert("json"@[0] != "text"@[0]);
            assert("json"@[0] != "avro"@[0]);
        },
        MessageFormat::Text => {
            reveal_strlit("TEXT");
            assert(crate::text::ascii_lowered("TEXT"@) =~= "text"@);
            assert("text"@[0] != "json"@[0]);
            assert("text"@[0] != "avro"@[0]);
        },
        MessageFormat::CanalJson => {
            reveal_strlit("CANAL_JSON");
            assert(crate::text::ascii_lowered("CANAL_JSON"@) =~= "canal_json"@);
        },
        MessageFormat::CanalClientJson => {
            reveal_strlit("CANAL_CLIENT_JSON");
            assert(crate::text::ascii_lowered("CANAL_CLIENT_JSON"@) =~= "canal_client_json"@);
        },
        MessageFormat::DebeziumJson => {
            reveal_strlit("DEBEZIUM_JSON");
            assert(crate::text::ascii_lowered("DEBEZIUM_JSON"@) =~= "debezium_json"@);
        },
        MessageFormat::CompatibleDebeziumJson => {
            reveal_strlit("COMPATIBLE_DEBEZIUM_JSON");
            assert(crate::text::ascii_lowered("COMPATIBLE_DEBEZIUM_JSON"@) =~= "compatible_debezium_json"@);
        },
        MessageFormat::CompatibleKafkaConnectJson => {
            reveal_strlit("COMPATIBLE_KAFKA_CONNECT_JSON");
            assert(crate::text::ascii_lowered("COMPATIBLE_KAFKA_CONNECT_JSON"@) =~= "compatible_kafka_connect_json"@);
        },
        MessageFormat::OggJson => {
            reveal_strlit("OGG_JSON");
            assert(crate::text::ascii_lowered("OGG_JSON"@) =~= "ogg_json"@);
            assert("ogg_json"@[0] != "protobuf"@[0]);
        },
        MessageFormat::MaxwellJson => {
            reveal_strlit("MAXWELL_JSON");
            assert(crate::text::ascii_lowered("MAXWELL_JSON"@) =~= "maxwell_json"@);
            assert("maxwell_json"@[0] != "canal_client"@[0]);
            assert("maxwell_json"@[0] != "canal-client"@[0]);
        },
        MessageFormat::Avro => {
            reveal_strlit("AVRO");
            assert(crate::text::ascii_lowered("AVRO"@) =~= "avro"@);
            assert("avro"@[0] != "json"@[0]);
            assert("avro"@[0] != "text"@[0]);
        },
        MessageFormat::Protobuf => {
            reveal_strlit("PROTOBUF");
            assert(crate::text::ascii_lowered("PROTOBUF"@) =~= "protobuf"@);
            assert("protobuf"@[0] != "ogg_json"@[0]);
            assert("protobuf"@[0] != "ogg-json"@[0]);
        },
        MessageFormat::Native => {
            reveal_strlit("NATIVE");
            assert(crate::text::ascii_lowered("NATIVE"@) =~= "native"@);
        },
    }
}

// ---------------------------------------------------------------------------
// Messages of any format
// ---------------------------------------------------------------------------

/// The row of a document: its members by the names of the columns. It never fails.
pub fn value_to_row(value: &Json, schema: &TableSchema) -> (r: Result<Row, FormatError>)
    ensures
        r is Ok,
        r->Ok_0@ == (RowV {
            kind: RowKind::Insert,
            fields: schema@.columns.map_values(
                |c: ColumnV| field_or_null(crate::json::field(value@, c.name), Reading::Nested),
            ),
            origin: None,
        }),
{
    let mut fields: Vec<Field> = Vec::new();
    let mut i: usize = 0;
    while i < schema.columns.len()
        invariant
            i <= schema.columns@.len(),
            fields@.len() == i,
            forall|k: int|
                0 <= k < i ==> #[trigger] fields@[k]@ == field_or_null(
                    crate::json::field(value@, schema.columns@[k].name@),
                    Reading::Nested,
                ),
        decreases schema.columns@.len() - i,
    {
        let f = match value.get(schema.columns[i].name.as_str()) {
            Some(v) => json_to_field(v, Reading::Nested),
            None => Field::Null,
        };
        fields.push(f);
        i += 1;
    }
    let r = Row { kind: RowKind::Insert, fields, origin_table: None };
    assert(r@.fields =~= schema@.columns.map_values(
        |c: ColumnV| field_or_null(crate::json::field(value@, c.name), Reading::Nested),
    ));
    Ok(r)
}

/// One row as all rows.
pub open spec fn alone(r: Result<RowV, FormatErrorV>) -> Result<Seq<RowV>, FormatErrorV> {
    match r {
        Ok(row) => Ok(seq![row]),
        Err(e) => Err(e),
    }
}

/// The rows of a JSON document of a format; the other formats have none.
pub open spec fn document_rows(format: MessageFormat, v: JsonV, schema: SchemaV) -> Result<Seq<RowV>, FormatErrorV> {
    match format {
        MessageFormat::Json => alone(json::decoded(v, schema)),
        MessageFormat::CanalJson => canal_json::decoded(v, schema),
        MessageFormat::CanalClientJson => Ok(seq![canal_client_json::decoded(v, schema)]),
        MessageFormat::DebeziumJson => debezium_json::decoded(v, schema),
        MessageFormat::CompatibleDebeziumJson => alone(compatible_debezium_json::decoded(v, schema)),
        MessageFormat::CompatibleKafkaConnectJson => alone(compatible_kafka_connect_json::decoded(v, schema)),
        MessageFormat::OggJson => ogg_json::decoded(v, schema),
        MessageFormat::MaxwellJson => maxwell_json::decoded(v, schema),
        MessageFormat::Native => alone(native::decoded(v, schema)),
        _ => Ok(Seq::empty()),
    }
}

/// The rows of a message of a format.
pub open spec fn message_rows(format: MessageFormat, b: Seq<u8>, schema: SchemaV) -> Result<Seq<RowV>, FormatErrorV> {
    match format {
        MessageFormat::Text => if vstd::utf8::valid_utf8(b) {
            alone(text::decoded(vstd::utf8::decode_utf8(b), schema))
        } else {
            Err(FormatErrorV::NotUtf8)
        },
        MessageFormat::Avro => alone(avro::decoded(b, schema)),
        MessageFormat::Protobuf => alone(protobuf::decoded(b, schema)),
        _ => match crate::json::parsed_json(b) {
            Some(v) => document_rows(format, v, schema),
            None => Err(FormatErrorV::Json),
        },
    }
}

fn single(r: Result<Row, FormatError>) -> (s: Result<Vec<Row>, FormatError>)
    ensures
        match (s, r) {
            (Ok(rows), Ok(row)) => rows_view(rows@) == seq![row@],
            (Err(a), Err(b)) => a@ == b@,
            _ => false,
        },
{
    match r {
        Ok(row) => {
            let ghost w = row@;
            let mut rows: Vec<Row> = Vec::new();
            rows.push(row);
            assert(rows_view(rows@) =~= seq![w]);
            Ok(rows)
        },
        Err(e) => Err(e),
    }
}

/// The rows of a message of a format.
pub fn deserialize_all(format: MessageFormat, bytes: &[u8], schema: &TableSchema) -> (r: Result<Vec<Row>, FormatError>)
    ensures
        match (r, message_rows(format, bytes@, schema@)) {
            (Ok(rows), Ok(w)) => rows_view(rows@) == w,
            (Err(e), Err(w)) => e@ == w,
            _ => false,
        },
{
    match format {
        MessageFormat::Json => single(json::deserialize(bytes, schema)),
        MessageFormat::Text => single(text::deserialize(bytes, schema)),
        MessageFormat::CanalJson => canal_json::deserialize(bytes, schema),
        MessageFormat::CanalClientJson => canal_client_json::deserialize(bytes, schema),
        MessageFormat::DebeziumJson => debezium_json::deserialize(bytes, schema),
        MessageFormat::CompatibleDebeziumJson => compatible_debezium_json::deserialize(bytes, schema),
        MessageFormat::CompatibleKafkaConnectJson => single(compatible_kafka_connect_json::deserialize(bytes, schema)),
        MessageFormat::OggJson => ogg_json::deserialize(bytes, schema),
        MessageFormat::MaxwellJson => maxwell_json::deserialize(bytes, schema),
        MessageFormat::Avro => single(avro::deserialize(bytes, schema)),
        MessageFormat::Protobuf => protobuf::deserialize(bytes, schema),
        MessageFormat::Native => native::deserialize(bytes, schema),
    }
}

/// The first row of a message of a format: of an update its before-image.
pub fn deserialize(format: MessageFormat, bytes: &[u8], schema: &TableSchema) -> (r: Result<Row, FormatError>)
    ensures
        match message_rows(format, bytes@, schema@) {
            Ok(w) => if w.len() > 0 {
                r is Ok && r->Ok_0@ == w[0]
            } else {
                r is Err && r->Err_0@ == FormatErrorV::Empty
            },
            Err(w) => r is Err && r->Err_0@ == w,
        },
{
    match deserialize_all(format, bytes, schema) {
        Ok(rows) => {
            let mut rows = rows;
            if rows.len() == 0 {
                Err(FormatError::Empty)
            } else {
                assert(rows_view(rows@)[0] == rows@[0]@);
                Ok(rows.remove(0))
            }
        },
        Err(e) => Err(e),
    }
}

/// Whether some bytes are a message of a row in a format.
pub open spec fn is_message(format: MessageFormat, schema: SchemaV, row: RowV, b: Seq<u8>) -> bool {
    match format {
        MessageFormat::Json => b == crate::json::json_bytes(json::encoded(schema, row)),
        MessageFormat::Text => b == vstd::utf8::encode_utf8(text::encoded(schema, row)),
        MessageFormat::CanalJson => exists|ts: i64|
            b == #[trigger] crate::json::json_bytes(canal_json::encoded(schema, row, ts)),
        MessageFormat::CanalClientJson => canal_client_json::is_single(schema, row, b),
        MessageFormat::DebeziumJson => exists|ts: i64|
            b == #[trigger] crate::json::json_bytes(debezium_json::encoded(schema, row, ts)),
        MessageFormat::CompatibleDebeziumJson => b == crate::json::json_bytes(
            compatible_debezium_json::encoded(schema, row),
        ),
        MessageFormat::CompatibleKafkaConnectJson => b == crate::json::json_bytes(
            compatible_kafka_connect_json::encoded(schema, row),
        ),
        MessageFormat::OggJson => b == crate::json::json_bytes(ogg_json::encoded(schema, row)),
        MessageFormat::MaxwellJson => b == crate::json::json_bytes(maxwell_json::encoded(schema, row)),
        MessageFormat::Avro => b == avro::encoded(schema, row),
        MessageFormat::Protobuf => b == protobuf::encoded(schema, row),
        MessageFormat::Native => b == crate::json::json_bytes(native::encoded(schema, row)),
    }
}

/// The message of a row in a format.
pub fn serialize(format: MessageFormat, schema: &TableSchema, row: &Row) -> (r: Result<Vec<u8>, FormatError>)
    requires
        schema@.columns.len() < 0x0fff_ffff_ffff_ffff,
    ensures
        r is Ok,
        is_message(format, schema@, row@, r->Ok_0@),
{
    match format {
        MessageFormat::Json => json::serialize(schema, row),
        MessageFormat::Text => text::serialize(schema, row),
        MessageFormat::CanalJson => canal_json::serialize(schema, row),
        MessageFormat::CanalClientJson => canal_client_json::serialize(schema, row),
        MessageFormat::DebeziumJson => debezium_json::serialize(schema, row),
        MessageFormat::CompatibleDebeziumJson => compatible_debezium_json::serialize(schema, row),
        MessageFormat::CompatibleKafkaConnectJson => compatible_kafka_connect_json::serialize(schema, row),
        MessageFormat::OggJson => ogg_json::serialize(schema, row),
        MessageFormat::MaxwellJson => maxwell_json::serialize(schema, row),
        MessageFormat::Avro => avro::serialize(schema, row),
        MessageFormat::Protobuf => protobuf::serialize(schema, row),
        MessageFormat::Native => native::serialize(schema, row),
    }
}

/// A format is found again under its name in lower case.
pub proof fn law_names_are_found(f: MessageFormat)
    ensures
        format_named(crate::text::ascii_lowered(name_of(f))) == Some(f),
{
    reveal_strlit("json");
    reveal_strlit("text");
    reveal_strlit("canal_json");
    reveal_strlit("canal-json");
    reveal_strlit("canal_client_json");
    reveal_strlit("canal-client-json");
    reveal_strlit("canal_client");
    reveal_strlit("canal-client");
    reveal_strlit("debezium_json");
    reveal_strlit("debezium-json");
    reveal_strlit("compatible_debezium_json");
    reveal_strlit("compatible-debezium-json");
    reveal_strlit("compatible_kafka_connect_json");
    reveal_strlit("compatible-kafka-connect-json");
    reveal_strlit("ogg_json");
    reveal_strlit("ogg-json");
    reveal_strlit("maxwell_json");
    reveal_strlit("maxwell-json");
    reveal_strlit("avro");
    reveal_strlit("protobuf");
    reveal_strlit("native");
    reveal_strlit("JSON");
    reveal_strlit("TEXT");
    reveal_strlit("CANAL_JSON");
    reveal_strlit("CANAL_CLIENT_JSON");
    reveal_strlit("DEBEZIUM_JSON");
    reveal_strlit("COMPATIBLE_DEBEZIUM_JSON");
    reveal_strlit("COMPATIBLE_KAFKA_CONNECT_JSON");
    reveal_strlit("OGG_JSON");
    reveal_strlit("MAXWELL_JSON");
    reveal_strlit("AVRO");
    reveal_strlit("PROTOBUF");
    reveal_strlit("NATIVE");
    assert("json"@[0] == 'j' && "text"@[0] == 't' && "avro"@[0] == 'a');
    assert("ogg_json"@[0] == 'o' && "ogg-json"@[0] == 'o' && "protobuf"@[0] == 'p');
    assert("canal_client"@[0] == 'c' && "canal-client"@[0] == 'c' && "maxwell_json"@[0] == 'm');
    let low = crate::text::ascii_lowered(name_of(f));
    match f {
        MessageFormat::Json => assert(low =~= "json"@),
        MessageFormat::Text => assert(low =~= "text"@),
        MessageFormat::CanalJson => assert(low =~= "canal_json"@),
        MessageFormat::CanalClientJson => assert(low =~= "canal_client_json"@),
        MessageFormat::DebeziumJson => assert(low =~= "debezium_json"@),
        MessageFormat::CompatibleDebeziumJson => assert(low =~= "compatible_debezium_json"@),
        MessageFormat::CompatibleKafkaConnectJson => assert(low =~= "compatible_kafka_connect_json"@),
        MessageFormat::OggJson => assert(low =~= "ogg_json"@),
        MessageFormat::MaxwellJson => assert(low =~= "maxwell_json"@),
        MessageFormat::Avro => assert(low =~= "avro"@),
        MessageFormat::Protobuf => assert(low =~= "protobuf"@),
        MessageFormat::Native => assert(low =~= "native"@),
    }
}

} // verus!
