//! Kafka Connect's JSON: a schema and a payload.

use vstd::prelude::*;

use crate::formats::convert::{
    is_plain, law_row_round_trip, object_for, read_row, row_of_members, write_row, Reading, Writing,
};
use crate::formats::error::{FormatError, FormatErrorV};
use crate::json;
use crate::json::{member, with_member, Json, JsonV};
use crate::row::{distinct_columns, ColumnType, ColumnV, Row, RowKind, RowV, SchemaV, TableSchema};
use crate::text;

verus! {

/// The members of a member that is an object; none when it is not.
pub open spec fn members_under(o: Seq<(Seq<char>, JsonV)>, key: Seq<char>) -> Seq<(Seq<char>, JsonV)> {
    match member(o, key) {
        Some(JsonV::Object(m)) => m,
        _ => Seq::empty(),
    }
}

/// The members of a member that is an object; none when it is not.
pub(crate) fn find_members(o: &Vec<(String, Json)>, key: &str) -> (r: Vec<(String, Json)>)
    ensures
        json::members_view(r@) == members_under(json::members_view(o@), key@),
{
    match json::find(o, key) {
        Some(v) => {
            proof {
                json::lemma_json_parts(*v);
            }
            match v {
                Json::Object(m) => json::copy_members(m),
                _ => {
                    let none: Vec<(String, Json)> = Vec::new();
                    assert(json::members_view(none@) =~= Seq::empty());
                    none
                },
            }
        },
        None => {
            let none: Vec<(String, Json)> = Vec::new();
            assert(json::members_view(none@) =~= Seq::empty());
            none
        },
    }
}

/// The row of a document: the members of its payload by the names of the columns.
/// It must be an object; a payload that is none leaves the row empty.
pub open spec fn decoded(v: JsonV, schema: SchemaV) -> Result<RowV, FormatErrorV> {
    match v {
        JsonV::Object(o) => Ok(
            row_of_members(RowKind::Insert, schema.columns, members_under(o, "payload"@), Reading::Flat),
        ),
        _ => Err(FormatErrorV::NotAnObject),
    }
}

/// The name of a type in the schema.
pub open spec fn connect_type(t: ColumnType) -> Seq<char> {
    match t {
        ColumnType::Bool => "boolean"@,
        ColumnType::Int32 => "int32"@,
        ColumnType::Int64 => "int64"@,
        ColumnType::Float64 => "double"@,
        ColumnType::Bytes => "bytes"@,
        _ => "string"@,
    }
}

/// A column in the schema.
pub open spec fn column_entry(c: ColumnV) -> JsonV {
    JsonV::Object(
        with_member(
            with_member(Seq::empty(), "type"@, JsonV::Str(connect_type(c.column_type))),
            "field"@,
            JsonV::Str(c.name),
        ),
    )
}

/// The schema of a document.
pub open spec fn schema_entry(columns: Seq<ColumnV>) -> JsonV {
    JsonV::Object(
        with_member(
            with_member(Seq::empty(), "type"@, JsonV::Str("struct"@)),
            "fields"@,
            JsonV::Array(columns.map_values(|c: ColumnV| column_entry(c))),
        ),
    )
}

/// The document of a row.
pub open spec fn encoded(schema: SchemaV, row: RowV) -> JsonV {
    JsonV::Object(
        with_member(
            with_member(Seq::empty(), "schema"@, schema_entry(schema.columns)),
            "payload"@,
            JsonV::Object(object_for(schema.columns, row.fields, Writing::Plain)),
        ),
    )
}

/// The row of a document.
pub fn read_value(v: &Json, schema: &TableSchema) -> (r: Result<Row, FormatError>)
    ensures
        match (r, decoded(v@, schema@)) {
            (Ok(row), Ok(w)) => row@ == w,
            (Err(e), Err(w)) => e@ == w,
            _ => false,
        },
{
    proof {
        json::lemma_json_parts(*v);
    }
    match v {
        Json::Object(o) => {
            let payload = find_members(o, "payload");
            Ok(read_row(RowKind::Insert, schema, &payload, Reading::Flat))
        },
        _ => Err(FormatError::NotAnObject),
    }
}

/// The row of a message.
pub fn deserialize(bytes: &[u8], schema: &TableSchema) -> (r: Result<Row, FormatError>)
    ensures
        match json::parsed_json(bytes@) {
            Some(v) => match (r, decoded(v, schema@)) {
                (Ok(row), Ok(w)) => row@ == w,
                (Err(e), Err(w)) => e@ == w,
                _ => false,
            },
            None => r is Err && r->Err_0@ == FormatErrorV::Json,
        },
{
    match json::read_json(bytes) {
        Ok(v) => read_value(&v, schema),
        Err(e) => Err(FormatError::Json(e)),
    }
}

fn type_str(t: &ColumnType) -> (r: &'static str)
    ensures
        r@ == connect_type(*t),
{
    match t {
        ColumnType::Bool => "boolean",
        ColumnType::Int32 => "int32",
        ColumnType::Int64 => "int64",
        ColumnType::Float64 => "double",
        ColumnType::Bytes => "bytes",
        _ => "string",
    }
}

fn write_schema(schema: &TableSchema) -> (r: Json)
    ensures
        r@ == schema_entry(schema@.columns),
{
    let mut entries: Vec<Json> = Vec::new();
    let mut i: usize = 0;
    while i < schema.columns.len()
        invariant
            i <= schema.columns@.len(),
            entries@.len() == i,
            forall|k: int| 0 <= k < i ==> #[trigger] entries@[k]@ == column_entry(schema.columns@[k]@),
        decreases schema.columns@.len() - i,
    {
        let c = &schema.columns[i];
        let mut f: Vec<(String, Json)> = Vec::new();
        assert(json::members_view(f@) =~= Seq::empty());
        json::put(&mut f, "type", Json::Str(text::owned(type_str(&c.column_type))));
        json::put(&mut f, "field", Json::Str(c.name.clone()));
        let e = Json::Object(f);
        proof {
            json::lemma_json_parts(e);
        }
        entries.push(e);
        i += 1;
    }
    let list = Json::Array(entries);
    let mut o: Vec<(String, Json)> = Vec::new();
    proof {
        json::lemma_json_parts(list);
        assert(json::items_view(entries@) =~= schema@.columns.map_values(|c: ColumnV| column_entry(c)));
        assert(json::members_view(o@) =~= Seq::empty());
    }
    json::put(&mut o, "type", Json::Str(text::owned("struct")));
    json::put(&mut o, "fields", list);
    let r = Json::Object(o);
    proof {
        json::lemma_json_parts(r);
    }
    r
}

/// The document of a row.
pub fn write_value(schema: &TableSchema, row: &Row) -> (r: Json)
    ensures
        r@ == encoded(schema@, row@),
{
    let payload = Json::Object(write_row(schema, row, Writing::Plain));
    let mut o: Vec<(String, Json)> = Vec::new();
    proof {
        json::lemma_json_parts(payload);
        assert(json::members_view(o@) =~= Seq::empty());
    }
    json::put(&mut o, "schema", write_schema(schema));
    json::put(&mut o, "payload", payload);
    let r = Json::Object(o);
    proof {
        json::lemma_json_parts(r);
    }
    r
}

/// The message of a row. It is read back as its document, as far as JSON holds it
/// exactly.
pub fn serialize(schema: &TableSchema, row: &Row) -> (r: Result<Vec<u8>, FormatError>)
    ensures
        r is Ok,
        r->Ok_0@ == json::json_bytes(encoded(schema@, row@)),
        json::readable(encoded(schema@, row@)) ==> json::parsed_json(r->Ok_0@) == Some(encoded(schema@, row@)),
{
    let doc = write_value(schema, row);
    match json::write_json(&doc) {
        Ok(b) => Ok(b),
        Err(e) => Err(FormatError::Json(e)),
    }
}

/// A row of plain fields is read back as it was written, as an inserted one.
pub proof fn law_round_trip(schema: SchemaV, row: RowV)
    requires
        distinct_columns(schema.columns),
        row.fields.len() == schema.columns.len(),
        forall|i: int| 0 <= i < row.fields.len() ==> is_plain(#[trigger] row.fields[i]),
    ensures
        decoded(encoded(schema, row), schema) == Ok::<RowV, FormatErrorV>(
            RowV { kind: RowKind::Insert, fields: row.fields, origin: None },
        ),
{
    let e = Seq::<(Seq<char>, JsonV)>::empty();
    let a = with_member(e, "schema"@, schema_entry(schema.columns));
    json::lemma_with_member(e, "schema"@, schema_entry(schema.columns));
    json::lemma_with_member(
        a,
        "payload"@,
        JsonV::Object(object_for(schema.columns, row.fields, Writing::Plain)),
    );
    law_row_round_trip(RowKind::Insert, schema.columns, row.fields, Reading::Flat, Writing::Plain);
}

} // verus!
