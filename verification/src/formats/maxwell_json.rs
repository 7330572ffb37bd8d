//! Maxwell's JSON: the kind of a change with its images.

use vstd::prelude::*;

use crate::formats::canal_json::{find_text, text_member};
use crate::formats::compatible_kafka_connect_json::{find_members, members_under};
use crate::formats::convert::{
    is_plain, law_row_round_trip, object_for, read_row, row_of_members, write_row, Reading, Writing,
};
use crate::formats::error::{FormatError, FormatErrorV};
use crate::json;
use crate::json::{with_member, Json, JsonV};
use crate::row::{distinct_columns, rows_view, Row, RowKind, RowV, SchemaV, TableSchema};
use crate::text;

verus! {

/// The rows of a change: an update gives its before-image and its after-image.
pub open spec fn decoded(v: JsonV, schema: SchemaV) -> Result<Seq<RowV>, FormatErrorV> {
    match v {
        JsonV::Object(o) => {
            let kind = text_member(o, "type"@, "insert"@);
            let data = members_under(o, "data"@);
            let c = schema.columns;
            Ok(
                if kind == "update"@ {
                    seq![
                        row_of_members(RowKind::UpdateBefore, c, members_under(o, "old"@), Reading::Flat),
                        row_of_members(RowKind::UpdateAfter, c, data, Reading::Flat),
                    ]
                } else if kind == "delete"@ {
                    seq![row_of_members(RowKind::Delete, c, data, Reading::Flat)]
                } else {
                    seq![row_of_members(RowKind::Insert, c, data, Reading::Flat)]
                },
            )
        },
        _ => Err(FormatErrorV::NotAnObject),
    }
}

/// The kind of a change in a document.
pub open spec fn kind_text(k: RowKind) -> Seq<char> {
    match k {
        RowKind::Delete => "delete"@,
        RowKind::UpdateBefore => "update"@,
        RowKind::UpdateAfter => "update"@,
        RowKind::Insert => "insert"@,
    }
}

/// The document of a row. A before-image is written as both images.
pub open spec fn encoded(schema: SchemaV, row: RowV) -> JsonV {
    let image = JsonV::Object(object_for(schema.columns, row.fields, Writing::Plain));
    let o = with_member(Seq::empty(), "database"@, JsonV::Str("default"@));
    let o = with_member(o, "table"@, JsonV::Str(schema.table));
    let o = with_member(o, "type"@, JsonV::Str(kind_text(row.kind)));
    let o = with_member(o, "xoffset"@, JsonV::Int(0));
    let o = with_member(o, "commit"@, JsonV::Bool(true));
    let o = if row.kind is UpdateBefore { with_member(o, "old"@, image) } else { o };
    JsonV::Object(with_member(o, "data"@, image))
}

/// The rows of a document.
pub fn read_value(v: &Json, schema: &TableSchema) -> (r: Result<Vec<Row>, FormatError>)
    ensures
        match (r, decoded(v@, schema@)) {
            (Ok(rows), Ok(w)) => rows_view(rows@) == w,
            (Err(e), Err(w)) => e@ == w,
            _ => false,
        },
{
    proof {
        json::lemma_json_parts(*v);
    }
    match v {
        Json::Object(o) => {
            let kind = find_text(o, "type", "insert");
            let data = find_members(o, "data");
            let mut rows: Vec<Row> = Vec::new();
            if text::same(kind.as_str(), "update") {
                let old = find_members(o, "old");
                rows.push(read_row(RowKind::UpdateBefore, schema, &old, Reading::Flat));
                rows.push(read_row(RowKind::UpdateAfter, schema, &data, Reading::Flat));
            } else if text::same(kind.as_str(), "delete") {
                rows.push(read_row(RowKind::Delete, schema, &data, Reading::Flat));
            } else {
                rows.push(read_row(RowKind::Insert, schema, &data, Reading::Flat));
            }
            assert(rows_view(rows@) =~= decoded(v@, schema@)->Ok_0);
            Ok(rows)
        },
        _ => Err(FormatError::NotAnObject),
    }
}

/// The rows of a message.
pub fn deserialize(bytes: &[u8], schema: &TableSchema) -> (r: Result<Vec<Row>, FormatError>)
    ensures
        match json::parsed_json(bytes@) {
            Some(v) => match (r, decoded(v, schema@)) {
                (Ok(rows), Ok(w)) => rows_view(rows@) == w,
                (Err(e), Err(w)) => e@ == w,
                _ => false,
            },
            None => r is Err && r->Err_0@ == FormatErrorV::Json,
        },
{
    match json::read_json(bytes) {
        Ok(v) => read_value(&v, schema),
        Err(e) => Err(FormatError::Json(e)),
    }
}

fn kind_str(k: &RowKind) -> (r: &'static str)
    ensures
        r@ == kind_text(*k),
{
    match k {
        RowKind::Delete => "delete",
        RowKind::UpdateBefore => "update",
        RowKind::UpdateAfter => "update",
        RowKind::Insert => "insert",
    }
}

fn image_of(schema: &TableSchema, row: &Row) -> (r: Json)
    ensures
        r@ == JsonV::Object(object_for(schema@.columns, row@.fields, Writing::Plain)),
{
    let r = Json::Object(write_row(schema, row, Writing::Plain));
    proof {
        json::lemma_json_parts(r);
    }
    r
}

/// The document of a row.
pub fn write_value(schema: &TableSchema, row: &Row) -> (r: Json)
    ensures
        r@ == encoded(schema@, row@),
{
    let mut o: Vec<(String, Json)> = Vec::new();
    assert(json::members_view(o@) =~= Seq::empty());
    json::put(&mut o, "database", Json::Str(text::owned("default")));
    json::put(&mut o, "table", Json::Str(schema.table_identifier.clone()));
    json::put(&mut o, "type", Json::Str(text::owned(kind_str(&row.kind))));
    json::put(&mut o, "xoffset", Json::Int(0));
    json::put(&mut o, "commit", Json::Bool(true));
    if row.kind == RowKind::UpdateBefore {
        json::put(&mut o, "old", image_of(schema, row));
    }
    json::put(&mut o, "data", image_of(schema, row));
    let r = Json::Object(o);
    proof {
        json::lemma_json_parts(r);
    }
    r
}

/// The message of a row. It is read back as its document, as far as JSON holds it
/// exactly.
pub fn serialize(schema: &TableSchema, row: &Row) -> (r: Result<Vec<u8>, FormatError>)
    ensures
        r is Ok,
        r->Ok_0@ == json::json_bytes(encoded(schema@, row@)),
        json::readable(encoded(schema@, row@)) ==> json::parsed_json(r->Ok_0@) == Some(encoded(schema@, row@)),
{
    let doc = write_value(schema, row);
    match json::write_json(&doc) {
        Ok(b) => Ok(b),
        Err(e) => Err(FormatError::Json(e)),
    }
}

/// A row of plain fields that was inserted or deleted is read back as it was
/// written; a before-image is read back as both images; of an after-image the
/// before-image is not written.
pub proof fn law_round_trip(schema: SchemaV, row: RowV)
    requires
        distinct_columns(schema.columns),
        row.fields.len() == schema.columns.len(),
        forall|i: int| 0 <= i < row.fields.len() ==> is_plain(#[trigger] row.fields[i]),
    ensures
        ({
            let d = decoded(encoded(schema, row), schema);
            &&& d is Ok
            &&& row.kind is Insert || row.kind is Delete ==> d->Ok_0 == seq![
                RowV { kind: row.kind, fields: row.fields, origin: None },
            ]
            &&& row.kind is UpdateBefore || row.kind is UpdateAfter ==> d->Ok_0.len() == 2 && d->Ok_0[1] == (RowV {
                kind: RowKind::UpdateAfter,
                fields: row.fields,
                origin: None,
            })
            &&& row.kind is UpdateBefore ==> d->Ok_0[0] == (RowV {
                kind: RowKind::UpdateBefore,
                fields: row.fields,
                origin: None,
            })
        }),
{
    reveal_strlit("database");
    reveal_strlit("table");
    reveal_strlit("type");
    reveal_strlit("xoffset");
    reveal_strlit("commit");
    reveal_strlit("old");
    reveal_strlit("data");
    reveal_strlit("insert");
    reveal_strlit("update");
    reveal_strlit("delete");
    assert("database"@.len() == 8 && "table"@.len() == 5 && "type"@.len() == 4 && "xoffset"@.len() == 7);
    assert("commit"@.len() == 6 && "old"@.len() == 3 && "data"@.len() == 4 && "type"@[0] == 't' && "data"@[0] == 'd');
    assert("insert"@[0] == 'i' && "update"@[0] == 'u' && "delete"@[0] == 'd');
    let image = JsonV::Object(object_for(schema.columns, row.fields, Writing::Plain));
    let o0 = Seq::<(Seq<char>, JsonV)>::empty();
    json::lemma_with_member(o0, "database"@, JsonV::Str("default"@));
    let o1 = with_member(o0, "database"@, JsonV::Str("default"@));
    json::lemma_with_member(o1, "table"@, JsonV::Str(schema.table));
    let o2 = with_member(o1, "table"@, JsonV::Str(schema.table));
    json::lemma_with_member(o2, "type"@, JsonV::Str(kind_text(row.kind)));
    let o3 = with_member(o2, "type"@, JsonV::Str(kind_text(row.kind)));
    json::lemma_with_member(o3, "xoffset"@, JsonV::Int(0));
    let o4 = with_member(o3, "xoffset"@, JsonV::Int(0));
    json::lemma_with_member(o4, "commit"@, JsonV::Bool(true));
    let o5 = with_member(o4, "commit"@, JsonV::Bool(true));
    json::lemma_with_member(o5, "old"@, image);
    let o6 = if row.kind is UpdateBefore { with_member(o5, "old"@, image) } else { o5 };
    json::lemma_with_member(o6, "data"@, image);
    let o = with_member(o6, "data"@, image);
    assert(text_member(o, "type"@, "insert"@) == kind_text(row.kind));
    assert(members_under(o, "data"@) == object_for(schema.columns, row.fields, Writing::Plain));
    law_row_round_trip(row.kind, schema.columns, row.fields, Reading::Flat, Writing::Plain);
    law_row_round_trip(RowKind::UpdateAfter, schema.columns, row.fields, Reading::Flat, Writing::Plain);
    law_row_round_trip(RowKind::UpdateBefore, schema.columns, row.fields, Reading::Flat, Writing::Plain);
}

} // verus!
