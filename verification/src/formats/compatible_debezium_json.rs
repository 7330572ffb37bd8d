//! Debezium's flattened JSON: an object with a member for each column.

use vstd::prelude::*;

use crate::formats::convert::{
    is_plain, law_row_round_trip, object_for, read_row, row_of_members, write_row, Reading, Writing,
};
use crate::formats::error::{FormatError, FormatErrorV};
use crate::json;
use crate::json::{Json, JsonV};
use crate::row::{distinct_columns, rows_view, Row, RowKind, RowV, SchemaV, TableSchema};

verus! {

/// The row of a document: its members by the names of the columns. It must be an
/// object.
pub open spec fn decoded(v: JsonV, schema: SchemaV) -> Result<RowV, FormatErrorV> {
    match v {
        JsonV::Object(o) => Ok(row_of_members(RowKind::Insert, schema.columns, o, Reading::Nested)),
        _ => Err(FormatErrorV::NotAnObject),
    }
}

/// The document of a row.
pub open spec fn encoded(schema: SchemaV, row: RowV) -> JsonV {
    JsonV::Object(object_for(schema.columns, row.fields, Writing::Plain))
}

/// The row of a document.
pub fn read_value(v: &Json, schema: &TableSchema) -> (r: Result<Row, FormatError>)
    ensures
        match (r, decoded(v@, schema@)) {
            (Ok(row), Ok(w)) => row@ == w,
            (Err(e), Err(w)) => e@ == w,
            _ => false,
        },
{
    proof {
        json::lemma_json_parts(*v);
    }
    match v {
        Json::Object(o) => Ok(read_row(RowKind::Insert, schema, o, Reading::Nested)),
        _ => Err(FormatError::NotAnObject),
    }
}

/// The one row of a message.
pub fn deserialize(bytes: &[u8], schema: &TableSchema) -> (r: Result<Vec<Row>, FormatError>)
    ensures
        match json::parsed_json(bytes@) {
            Some(v) => match (r, decoded(v, schema@)) {
                (Ok(rows), Ok(w)) => rows_view(rows@) == seq![w],
                (Err(e), Err(w)) => e@ == w,
                _ => false,
            },
            None => r is Err && r->Err_0@ == FormatErrorV::Json,
        },
{
    match json::read_json(bytes) {
        Ok(v) => match read_value(&v, schema) {
            Ok(row) => {
                let mut rows: Vec<Row> = Vec::new();
                let ghost w = row@;
                rows.push(row);
                assert(rows_view(rows@) =~= seq![w]);
                Ok(rows)
            },
            Err(e) => Err(e),
        },
        Err(e) => Err(FormatError::Json(e)),
    }
}

/// The document of a row.
pub fn write_value(schema: &TableSchema, row: &Row) -> (r: Json)
    ensures
        r@ == encoded(schema@, row@),
{
    let r = Json::Object(write_row(schema, row, Writing::Plain));
    proof {
        json::lemma_json_parts(r);
    }
    r
}

/// The message of a row. It is read back as its document, as far as JSON holds it
/// exactly.
pub fn serialize(schema: &TableSchema, row: &Row) -> (r: Result<Vec<u8>, FormatError>)
    ensures
        r is Ok,
        r->Ok_0@ == json::json_bytes(encoded(schema@, row@)),
        json::readable(encoded(schema@, row@)) ==> json::parsed_json(r->Ok_0@) == Some(encoded(schema@, row@)),
{
    let doc = write_value(schema, row);
    match json::write_json(&doc) {
        Ok(b) => Ok(b),
        Err(e) => Err(FormatError::Json(e)),
    }
}

/// A row of plain fields is read back as it was written, as an inserted one.
pub proof fn law_round_trip(schema: SchemaV, row: RowV)
    requires
        distinct_columns(schema.columns),
        row.fields.len() == schema.columns.len(),
        forall|i: int| 0 <= i < row.fields.len() ==> is_plain(#[trigger] row.fields[i]),
    ensures
        decoded(encoded(schema, row), schema) == Ok::<RowV, FormatErrorV>(
            RowV { kind: RowKind::Insert, fields: row.fields, origin: None },
        ),
{
    law_row_round_trip(RowKind::Insert, schema.columns, row.fields, Reading::Nested, Writing::Plain);
}

} // verus!
