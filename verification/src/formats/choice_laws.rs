//! Which format a name stands for, and which format reads and writes a message.

use vstd::prelude::*;

use crate::formats::error::FormatErrorV;
use crate::formats::{
    avro, canal_client_json, canal_json, compatible_debezium_json, compatible_kafka_connect_json, debezium_json, json,
    maxwell_json, native, ogg_json, protobuf, text,
};
use crate::formats::{format_named, is_message, message_rows, name_of, MessageFormat};
use crate::json::{json_bytes, parsed_json, JsonV};
use crate::row::{RowV, SchemaV};

verus! {

/// The names that formats are asked for by; any other name stands for none.
pub proof fn law_names_of_formats(s: Seq<char>)
    ensures
        format_named("json"@) == Some(MessageFormat::Json),
        format_named("text"@) == Some(MessageFormat::Text),
        format_named("canal_json"@) == Some(MessageFormat::CanalJson),
        format_named("canal-json"@) == Some(MessageFormat::CanalJson),
        format_named("canal_client_json"@) == Some(MessageFormat::CanalClientJson),
        format_named("canal-client-json"@) == Some(MessageFormat::CanalClientJson),
        format_named("canal_client"@) == Some(MessageFormat::CanalClientJson),
        format_named("canal-client"@) == Some(MessageFormat::CanalClientJson),
        format_named("debezium_json"@) == Some(MessageFormat::DebeziumJson),
        format_named("debezium-json"@) == Some(MessageFormat::DebeziumJson),
        format_named("compatible_debezium_json"@) == Some(MessageFormat::CompatibleDebeziumJson),
        format_named("compatible-debezium-json"@) == Some(MessageFormat::CompatibleDebeziumJson),
        format_named("compatible_kafka_connect_json"@) == Some(MessageFormat::CompatibleKafkaConnectJson),
        format_named("compatible-kafka-connect-json"@) == Some(MessageFormat::CompatibleKafkaConnectJson),
        format_named("ogg_json"@) == Some(MessageFormat::OggJson),
        format_named("ogg-json"@) == Some(MessageFormat::OggJson),
        format_named("maxwell_json"@) == Some(MessageFormat::MaxwellJson),
        format_named("maxwell-json"@) == Some(MessageFormat::MaxwellJson),
        format_named("avro"@) == Some(MessageFormat::Avro),
        format_named("protobuf"@) == Some(MessageFormat::Protobuf),
        format_named("native"@) == Some(MessageFormat::Native),
        s != "json"@ && s != "text"@ && s != "canal_json"@ && s != "canal-json"@ && s != "canal_client_json"@
            && s != "canal-client-json"@ && s != "canal_client"@ && s != "canal-client"@ && s != "debezium_json"@
            && s != "debezium-json"@ && s != "compatible_debezium_json"@ && s != "compatible-debezium-json"@
            && s != "compatible_kafka_connect_json"@ && s != "compatible-kafka-connect-json"@ && s != "ogg_json"@
            && s != "ogg-json"@ && s != "maxwell_json"@ && s != "maxwell-json"@ && s != "avro"@ && s != "protobuf"@
            && s != "native"@ ==> format_named(s) is None,
{
    reveal_strlit("json");
    reveal_strlit("text");
    reveal_strlit("canal_json");
    reveal_strlit("canal-json");
    reveal_strlit("canal_client_json");
    reveal_strlit("canal-client-json");
    reveal_strlit("canal_client");
    reveal_strlit("canal-client");
    reveal_strlit("debezium_json");
    reveal_strlit("debezium-json");
    reveal_strlit("compatible_debezium_json");
    reveal_strlit("compatible-debezium-json");
    reveal_strlit("compatible_kafka_connect_json");
    reveal_strlit("compatible-kafka-connect-json");
    reveal_strlit("ogg_json");
    reveal_strlit("ogg-json");
    reveal_strlit("maxwell_json");
    reveal_strlit("maxwell-json");
    reveal_strlit("avro");
    reveal_strlit("protobuf");
    reveal_strlit("native");
    assert("json"@.len() == 4);
    assert("text"@.len() == 4);
    assert("canal_json"@.len() == 10);
    assert("canal-json"@.len() == 10);
    assert("canal_client_json"@.len() == 17);
    assert("canal-client-json"@.len() == 17);
    assert("canal_client"@.len() == 12);
    assert("canal-client"@.len() == 12);
    assert("debezium_json"@.len() == 13);
    assert("debezium-json"@.len() == 13);
    assert("compatible_debezium_json"@.len() == 24);
    assert("compatible-debezium-json"@.len() == 24);
    assert("compatible_kafka_connect_json"@.len() == 29);
    assert("compatible-kafka-connect-json"@.len() == 29);
    assert("ogg_json"@.len() == 8);
    assert("ogg-json"@.len() == 8);
    assert("maxwell_json"@.len() == 12);
    assert("maxwell-json"@.len() == 12);
    assert("avro"@.len() == 4);
    assert("protobuf"@.len() == 8);
    assert("native"@.len() == 6);
    assert("json"@[0] != "text"@[0]);
    assert("json"@[0] != "avro"@[0]);
    assert("text"@[0] != "avro"@[0]);
    assert("canal_json"@[5] != "canal-json"@[5]);
    assert("canal_client_json"@[5] != "canal-client-json"@[5]);
    assert("canal_client"@[5] != "canal-client"@[5]);
    assert("canal_client"@[0] != "maxwell_json"@[0]);
    assert("canal_client"@[0] != "maxwell-json"@[0]);
    assert("canal-client"@[0] != "maxwell_json"@[0]);
    assert("canal-client"@[0] != "maxwell-json"@[0]);
    assert("debezium_json"@[8] != "debezium-json"@[8]);
    assert("compatible_debezium_json"@[10] != "compatible-debezium-json"@[10]);
    assert("compatible_kafka_connect_json"@[10] != "compatible-kafka-connect-json"@[10]);
    assert("ogg_json"@[3] != "ogg-json"@[3]);
    assert("ogg_json"@[0] != "protobuf"@[0]);
    assert("ogg-json"@[0] != "protobuf"@[0]);
    assert("maxwell_json"@[7] != "maxwell-json"@[7]);
}

/// The names that formats are shown by.
pub proof fn law_shown_names()
    ensures
        name_of(MessageFormat::Json) == "JSON"@,
        name_of(MessageFormat::Text) == "TEXT"@,
        name_of(MessageFormat::CanalJson) == "CANAL_JSON"@,
        name_of(MessageFormat::CanalClientJson) == "CANAL_CLIENT_JSON"@,
        name_of(MessageFormat::DebeziumJson) == "DEBEZIUM_JSON"@,
        name_of(MessageFormat::CompatibleDebeziumJson) == "COMPATIBLE_DEBEZIUM_JSON"@,
        name_of(MessageFormat::CompatibleKafkaConnectJson) == "COMPATIBLE_KAFKA_CONNECT_JSON"@,
        name_of(MessageFormat::OggJson) == "OGG_JSON"@,
        name_of(MessageFormat::MaxwellJson) == "MAXWELL_JSON"@,
        name_of(MessageFormat::Avro) == "AVRO"@,
        name_of(MessageFormat::Protobuf) == "PROTOBUF"@,
        name_of(MessageFormat::Native) == "NATIVE"@,
{
}

/// Whether what was read is the row alone that a format reads, or its error.
pub open spec fn is_row_of(r: Result<Seq<RowV>, FormatErrorV>, one: Result<RowV, FormatErrorV>) -> bool {
    match one {
        Ok(row) => r is Ok && r->Ok_0.len() == 1 && r->Ok_0[0] == row,
        Err(e) => r is Err && r->Err_0 == e,
    }
}

/// A message is read by its own format. One that is a document, and cannot be read as one,
/// is refused as such; a text has to be valid.
pub proof fn law_formats_read(b: Seq<u8>, schema: SchemaV, v: JsonV)
    ensures
        vstd::utf8::valid_utf8(b) ==> is_row_of(
            message_rows(MessageFormat::Text, b, schema),
            text::decoded(vstd::utf8::decode_utf8(b), schema),
        ),
        !vstd::utf8::valid_utf8(b) ==> message_rows(MessageFormat::Text, b, schema) == Err::<Seq<RowV>, FormatErrorV>(
            FormatErrorV::NotUtf8,
        ),
        is_row_of(message_rows(MessageFormat::Avro, b, schema), avro::decoded(b, schema)),
        is_row_of(message_rows(MessageFormat::Protobuf, b, schema), protobuf::decoded(b, schema)),
        forall|f: MessageFormat|
            parsed_json(b) is None && !(f is Text) && !(f is Avro) && !(f is Protobuf) ==> #[trigger] message_rows(
                f,
                b,
                schema,
            ) == Err::<Seq<RowV>, FormatErrorV>(FormatErrorV::Json),
        parsed_json(b) == Some(v) ==> {
            &&& is_row_of(message_rows(MessageFormat::Json, b, schema), json::decoded(v, schema))
            &&& is_row_of(message_rows(MessageFormat::Native, b, schema), native::decoded(v, schema))
            &&& is_row_of(
                message_rows(MessageFormat::CompatibleDebeziumJson, b, schema),
                compatible_debezium_json::decoded(v, schema),
            )
            &&& is_row_of(
                message_rows(MessageFormat::CompatibleKafkaConnectJson, b, schema),
                compatible_kafka_connect_json::decoded(v, schema),
            )
            &&& message_rows(MessageFormat::CanalJson, b, schema) == canal_json::decoded(v, schema)
            &&& message_rows(MessageFormat::DebeziumJson, b, schema) == debezium_json::decoded(v, schema)
            &&& message_rows(MessageFormat::OggJson, b, schema) == ogg_json::decoded(v, schema)
            &&& message_rows(MessageFormat::MaxwellJson, b, schema) == maxwell_json::decoded(v, schema)
            &&& message_rows(MessageFormat::CanalClientJson, b, schema) == Ok::<Seq<RowV>, FormatErrorV>(
                seq![canal_client_json::decoded(v, schema)],
            )
        },
{
}

/// A row is written by its own format. Two of them add the time, and one an id.
pub proof fn law_formats_write(schema: SchemaV, row: RowV, b: Seq<u8>)
    ensures
        is_message(MessageFormat::Json, schema, row, b) <==> b == json_bytes(json::encoded(schema, row)),
        is_message(MessageFormat::Native, schema, row, b) <==> b == json_bytes(native::encoded(schema, row)),
        is_message(MessageFormat::Text, schema, row, b) <==> b == vstd::utf8::encode_utf8(text::encoded(schema, row)),
        is_message(MessageFormat::Avro, schema, row, b) <==> b == avro::encoded(schema, row),
        is_message(MessageFormat::Protobuf, schema, row, b) <==> b == protobuf::encoded(schema, row),
        is_message(MessageFormat::OggJson, schema, row, b) <==> b == json_bytes(ogg_json::encoded(schema, row)),
        is_message(MessageFormat::MaxwellJson, schema, row, b) <==> b == json_bytes(maxwell_json::encoded(schema, row)),
        is_message(MessageFormat::CompatibleDebeziumJson, schema, row, b) <==> b == json_bytes(
            compatible_debezium_json::encoded(schema, row),
        ),
        is_message(MessageFormat::CompatibleKafkaConnectJson, schema, row, b) <==> b == json_bytes(
            compatible_kafka_connect_json::encoded(schema, row),
        ),
        is_message(MessageFormat::CanalJson, schema, row, b) <==> exists|ts: i64|
            b == #[trigger] json_bytes(canal_json::encoded(schema, row, ts)),
        is_message(MessageFormat::DebeziumJson, schema, row, b) <==> exists|ts: i64|
            b == #[trigger] json_bytes(debezium_json::encoded(schema, row, ts)),
        is_message(MessageFormat::CanalClientJson, schema, row, b) <==> exists|image: Seq<JsonV>, id: Seq<char>|
            crate::formats::client_values::all_become(crate::formats::zone::ZoneV::Local, row.fields, image)
                && canal_client_json::is_request_id(id) && b == json_bytes(
                #[trigger] canal_client_json::single_document(schema, row, image, id),
            ),
{
}

} // verus!
