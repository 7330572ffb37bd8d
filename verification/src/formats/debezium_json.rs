//! Debezium's JSON: an operation with its images before and after.

use vstd::prelude::*;

use crate::formats::canal_json::{find_text, now_millis, text_member};
use crate::formats::compatible_kafka_connect_json::{find_members, members_under};
use crate::formats::convert::{
    field_or_null, is_plain, json_to_field, law_row_round_trip, object_for, row_of_members, write_row, Reading, Writing,
};
use crate::formats::error::{FormatError, FormatErrorV};
use crate::json;
use crate::json::{member, with_member, Json, JsonV};
use crate::row::{distinct_columns, rows_view, ColumnV, Field, FieldV, Row, RowKind, RowV, SchemaV, TableSchema};
use crate::text;

verus! {

/// The members of an object.
pub type MembersV = Seq<(Seq<char>, JsonV)>;

/// The value of a column: that of the first image, else that of the second.
pub open spec fn preferred(first: MembersV, second: MembersV, name: Seq<char>) -> FieldV {
    match member(first, name) {
        Some(v) => field_or_null(Some(v), Reading::Nested),
        None => field_or_null(member(second, name), Reading::Nested),
    }
}

/// The row of two images, the first of which is preferred.
pub open spec fn row_of_images(kind: RowKind, columns: Seq<ColumnV>, first: MembersV, second: MembersV) -> RowV {
    RowV { kind, fields: columns.map_values(|c: ColumnV| preferred(first, second, c.name)), origin: None }
}

/// The rows of a change: an update gives its before-image and its after-image.
pub open spec fn decoded(v: JsonV, schema: SchemaV) -> Result<Seq<RowV>, FormatErrorV> {
    match v {
        JsonV::Object(o) => {
            let op = text_member(o, "op"@, "c"@);
            let before = members_under(o, "before"@);
            let after = members_under(o, "after"@);
            let c = schema.columns;
            Ok(
                if op == "u"@ {
                    seq![
                        row_of_images(RowKind::UpdateBefore, c, before, after),
                        row_of_images(RowKind::UpdateAfter, c, after, before),
                    ]
                } else if op == "d"@ {
                    seq![row_of_images(RowKind::Delete, c, before, after)]
                } else {
                    seq![row_of_images(RowKind::Insert, c, after, before)]
                },
            )
        },
        _ => Err(FormatErrorV::NotAnObject),
    }
}

/// The operation of a kind of change.
pub open spec fn op_text(k: RowKind) -> Seq<char> {
    match k {
        RowKind::Insert => "c"@,
        RowKind::UpdateBefore => "u"@,
        RowKind::UpdateAfter => "u"@,
        RowKind::Delete => "d"@,
    }
}

/// The document of a row at a time. An after-image is written of an insert and of
/// the later image of an update, a before-image of all but an insert.
pub open spec fn encoded(schema: SchemaV, row: RowV, ts: i64) -> JsonV {
    let image = JsonV::Object(object_for(schema.columns, row.fields, Writing::Plain));
    let o = Seq::<(Seq<char>, JsonV)>::empty();
    let o = if row.kind is Insert || row.kind is UpdateAfter { with_member(o, "after"@, image) } else { o };
    let o = if row.kind is Insert { o } else { with_member(o, "before"@, image) };
    let o = with_member(o, "op"@, JsonV::Str(op_text(row.kind)));
    let o = with_member(
        o,
        "source"@,
        JsonV::Object(with_member(Seq::empty(), "ts_ms"@, JsonV::Int(ts as int))),
    );
    JsonV::Object(with_member(o, "ts_ms"@, JsonV::Int(ts as int)))
}

fn read_images(
    kind: RowKind,
    schema: &TableSchema,
    first: &Vec<(String, Json)>,
    second: &Vec<(String, Json)>,
) -> (r: Row)
    ensures
        r@ == row_of_images(kind, schema@.columns, json::members_view(first@), json::members_view(second@)),
{
    let ghost a = json::members_view(first@);
    let ghost b = json::members_view(second@);
    let mut fields: Vec<Field> = Vec::new();
    let mut i: usize = 0;
    while i < schema.columns.len()
        invariant
            i <= schema.columns@.len(),
            a == json::members_view(first@),
            b == json::members_view(second@),
            fields@.len() == i,
            forall|k: int| 0 <= k < i ==> #[trigger] fields@[k]@ == preferred(a, b, schema.columns@[k].name@),
        decreases schema.columns@.len() - i,
    {
        let name = schema.columns[i].name.as_str();
        let f = match json::find(first, name) {
            Some(v) => json_to_field(v, Reading::Nested),
            None => match json::find(second, name) {
                Some(v) => json_to_field(v, Reading::Nested),
                None => Field::Null,
            },
        };
        fields.push(f);
        i += 1;
    }
    let r = Row { kind, fields, origin_table: None };
    assert(r@.fields =~= row_of_images(kind, schema@.columns, a, b).fields);
    r
}

/// The rows of a document.
pub fn read_value(v: &Json, schema: &TableSchema) -> (r: Result<Vec<Row>, FormatError>)
    ensures
        match (r, decoded(v@, schema@)) {
            (Ok(rows), Ok(w)) => rows_view(rows@) == w,
            (Err(e), Err(w)) => e@ == w,
            _ => false,
        },
{
    proof {
        json::lemma_json_parts(*v);
    }
    match v {
        Json::Object(o) => {
            let op = find_text(o, "op", "c");
            let before = find_members(o, "before");
            let after = find_members(o, "after");
            let mut rows: Vec<Row> = Vec::new();
            if text::same(op.as_str(), "u") {
                rows.push(read_images(RowKind::UpdateBefore, schema, &before, &after));
                rows.push(read_images(RowKind::UpdateAfter, schema, &after, &before));
            } else if text::same(op.as_str(), "d") {
                rows.push(read_images(RowKind::Delete, schema, &before, &after));
            } else {
                rows.push(read_images(RowKind::Insert, schema, &after, &before));
            }
            assert(rows_view(rows@) =~= decoded(v@, schema@)->Ok_0);
            Ok(rows)
        },
        _ => Err(FormatError::NotAnObject),
    }
}

/// The rows of a message.
pub fn deserialize(bytes: &[u8], schema: &TableSchema) -> (r: Result<Vec<Row>, FormatError>)
    ensures
        match json::parsed_json(bytes@) {
            Some(v) => match (r, decoded(v, schema@)) {
                (Ok(rows), Ok(w)) => rows_view(rows@) == w,
                (Err(e), Err(w)) => e@ == w,
                _ => false,
            },
            None => r is Err && r->Err_0@ == FormatErrorV::Json,
        },
{
    match json::read_json(bytes) {
        Ok(v) => read_value(&v, schema),
        Err(e) => Err(FormatError::Json(e)),
    }
}

fn op_str(k: &RowKind) -> (r: &'static str)
    ensures
        r@ == op_text(*k),
{
    match k {
        RowKind::Insert => "c",
        RowKind::UpdateBefore => "u",
        RowKind::UpdateAfter => "u",
        RowKind::Delete => "d",
    }
}

fn image_of(schema: &TableSchema, row: &Row) -> (r: Json)
    ensures
        r@ == JsonV::Object(object_for(schema@.columns, row@.fields, Writing::Plain)),
{
    let r = Json::Object(write_row(schema, row, Writing::Plain));
    proof {
        json::lemma_json_parts(r);
    }
    r
}

/// The document of a row at a time.
pub fn write_value(schema: &TableSchema, row: &Row, ts: i64) -> (r: Json)
    ensures
        r@ == encoded(schema@, row@, ts),
{
    let mut o: Vec<(String, Json)> = Vec::new();
    let mut s: Vec<(String, Json)> = Vec::new();
    proof {
        assert(json::members_view(o@) =~= Seq::empty());
        assert(json::members_view(s@) =~= Seq::empty());
    }
    if row.kind == RowKind::Insert || row.kind == RowKind::UpdateAfter {
        json::put(&mut o, "after", image_of(schema, row));
    }
    if row.kind != RowKind::Insert {
        json::put(&mut o, "before", image_of(schema, row));
    }
    json::put(&mut o, "op", Json::Str(text::owned(op_str(&row.kind))));
    json::put(&mut s, "ts_ms", Json::Int(ts));
    let source = Json::Object(s);
    proof {
        json::lemma_json_parts(source);
    }
    json::put(&mut o, "source", source);
    json::put(&mut o, "ts_ms", Json::Int(ts));
    let r = Json::Object(o);
    proof {
        json::lemma_json_parts(r);
    }
    r
}

/// The message of a row at a time.
pub fn serialize_at(schema: &TableSchema, row: &Row, ts: i64) -> (r: Result<Vec<u8>, FormatError>)
    ensures
        r is Ok,
        r->Ok_0@ == json::json_bytes(encoded(schema@, row@, ts)),
        json::readable(encoded(schema@, row@, ts)) ==> json::parsed_json(r->Ok_0@) == Some(
            encoded(schema@, row@, ts),
        ),
{
    let doc = write_value(schema, row, ts);
    match json::write_json(&doc) {
        Ok(b) => Ok(b),
        Err(e) => Err(FormatError::Json(e)),
    }
}

/// The message of a row at the current time.
pub fn serialize(schema: &TableSchema, row: &Row) -> (r: Result<Vec<u8>, FormatError>)
    ensures
        r is Ok,
        exists|ts: i64| r->Ok_0@ == #[trigger] json::json_bytes(encoded(schema@, row@, ts)),
{
    let ts = now_millis();
    serialize_at(schema, row, ts)
}

proof fn lemma_images(kind: RowKind, columns: Seq<ColumnV>, fields: Seq<FieldV>, second: MembersV)
    requires
        distinct_columns(columns),
        fields.len() == columns.len(),
        forall|i: int| 0 <= i < fields.len() ==> is_plain(#[trigger] fields[i]),
        second == object_for(columns, fields, Writing::Plain) || second.len() == 0,
    ensures
        row_of_images(kind, columns, object_for(columns, fields, Writing::Plain), second).fields == fields,
        row_of_images(kind, columns, second, object_for(columns, fields, Writing::Plain)).fields == fields,
{
    let o = object_for(columns, fields, Writing::Plain);
    law_row_round_trip(kind, columns, fields, Reading::Nested, Writing::Plain);
    let m = row_of_members(kind, columns, o, Reading::Nested);
    let r = row_of_images(kind, columns, o, second);
    let q = row_of_images(kind, columns, second, o);
    assert forall|i: int| 0 <= i < columns.len() implies #[trigger] r.fields[i] == fields[i] && q.fields[i] == fields[i] by {
        assert(m.fields[i] == fields[i]);
        assert(m.fields[i] == field_or_null(member(o, columns[i].name), Reading::Nested));
    }
    assert(r.fields =~= fields);
    assert(q.fields =~= fields);
}

/// A row of plain fields that was inserted or deleted is read back as it was
/// written. One of an update is read back as both images.
pub proof fn law_round_trip(schema: SchemaV, row: RowV, ts: i64)
    requires
        distinct_columns(schema.columns),
        row.fields.len() == schema.columns.len(),
        forall|i: int| 0 <= i < row.fields.len() ==> is_plain(#[trigger] row.fields[i]),
    ensures
        decoded(encoded(schema, row, ts), schema) == Ok::<Seq<RowV>, FormatErrorV>(
            if row.kind is Insert || row.kind is Delete {
                seq![RowV { kind: row.kind, fields: row.fields, origin: None }]
            } else {
                seq![
                    RowV { kind: RowKind::UpdateBefore, fields: row.fields, origin: None },
                    RowV { kind: RowKind::UpdateAfter, fields: row.fields, origin: None },
                ]
            },
        ),
{
    reveal_strlit("after");
    reveal_strlit("before");
    reveal_strlit("op");
    reveal_strlit("source");
    reveal_strlit("ts_ms");
    reveal_strlit("c");
    reveal_strlit("u");
    reveal_strlit("d");
    assert("after"@.len() == 5 && "before"@.len() == 6 && "op"@.len() == 2 && "source"@.len() == 6 && "ts_ms"@.len() == 5);
    assert("after"@[0] == 'a' && "ts_ms"@[0] == 't' && "before"@[0] == 'b' && "source"@[0] == 's');
    assert("c"@[0] == 'c' && "u"@[0] == 'u' && "d"@[0] == 'd');
    let image = JsonV::Object(object_for(schema.columns, row.fields, Writing::Plain));
    let o0 = Seq::<(Seq<char>, JsonV)>::empty();
    let o1 = if row.kind is Insert || row.kind is UpdateAfter { with_member(o0, "after"@, image) } else { o0 };
    json::lemma_with_member(o0, "after"@, image);
    let o2 = if row.kind is Insert { o1 } else { with_member(o1, "before"@, image) };
    json::lemma_with_member(o1, "before"@, image);
    let o3 = with_member(o2, "op"@, JsonV::Str(op_text(row.kind)));
    json::lemma_with_member(o2, "op"@, JsonV::Str(op_text(row.kind)));
    let source = JsonV::Object(with_member(Seq::empty(), "ts_ms"@, JsonV::Int(ts as int)));
    let o4 = with_member(o3, "source"@, source);
    json::lemma_with_member(o3, "source"@, source);
    json::lemma_with_member(o4, "ts_ms"@, JsonV::Int(ts as int));
    let full = object_for(schema.columns, row.fields, Writing::Plain);
    lemma_images(row.kind, schema.columns, row.fields, o0);
    lemma_images(RowKind::UpdateBefore, schema.columns, row.fields, o0);
    lemma_images(RowKind::UpdateAfter, schema.columns, row.fields, o0);
    lemma_images(RowKind::UpdateBefore, schema.columns, row.fields, full);
    lemma_images(RowKind::UpdateAfter, schema.columns, row.fields, full);
    let o = with_member(o4, "ts_ms"@, JsonV::Int(ts as int));
    assert(text_member(o, "op"@, "c"@) == op_text(row.kind));
    assert(members_under(o, "after"@) == if row.kind is Insert || row.kind is UpdateAfter { full } else { o0 });
    assert(members_under(o, "before"@) == if row.kind is Insert { o0 } else { full });
}

} // verus!
