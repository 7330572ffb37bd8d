//! Canal's JSON: the kind of a change, its images in lists, and a time.

use vstd::prelude::*;

use crate::formats::convert::{
    is_plain, law_row_round_trip, object_for, read_row, row_of_members, write_row, Reading, Writing,
};
use crate::formats::error::{FormatError, FormatErrorV};
use crate::json;
use crate::json::{member, with_member, Json, JsonV};
use crate::row::{distinct_columns, rows_view, Row, RowKind, RowV, SchemaV, TableSchema};
use crate::text;

verus! {

/// The current time in epoch milliseconds: `chrono::Utc::now`. Nothing is claimed
/// of it.
#[verifier::external_body]
pub(crate) fn now_millis() -> (r: i64) {
    chrono::Utc::now().timestamp_millis()
}

/// The text of a member, else a default.
pub open spec fn text_member(o: Seq<(Seq<char>, JsonV)>, key: Seq<char>, default: Seq<char>) -> Seq<char> {
    match member(o, key) {
        Some(JsonV::Str(s)) => s,
        _ => default,
    }
}

/// The text of a member, else a default.
pub(crate) fn find_text(o: &Vec<(String, Json)>, key: &str, default: &str) -> (r: String)
    ensures
        r@ == text_member(json::members_view(o@), key@, default@),
{
    match json::find(o, key) {
        Some(v) => match v {
            Json::Str(s) => s.clone(),
            _ => text::owned(default),
        },
        None => text::owned(default),
    }
}

/// The members of the first object of a list; none when there is none.
pub open spec fn first_image(o: Seq<(Seq<char>, JsonV)>, key: Seq<char>) -> Seq<(Seq<char>, JsonV)> {
    match member(o, key) {
        Some(JsonV::Array(a)) => if a.len() > 0 {
            match a[0] {
                JsonV::Object(m) => m,
                _ => Seq::empty(),
            }
        } else {
            Seq::empty()
        },
        _ => Seq::empty(),
    }
}

fn find_image(o: &Vec<(String, Json)>, key: &str) -> (r: Vec<(String, Json)>)
    ensures
        json::members_view(r@) == first_image(json::members_view(o@), key@),
{
    let none: Vec<(String, Json)> = Vec::new();
    assert(json::members_view(none@) =~= Seq::empty());
    match json::find(o, key) {
        Some(v) => {
            proof {
                json::lemma_json_parts(*v);
            }
            match v {
                Json::Array(a) => {
                    if a.len() > 0 {
                        proof {
                            json::lemma_json_parts(a@[0]);
                            assert(json::items_view(a@)[0] == a@[0]@);
                        }
                        match &a[0] {
                            Json::Object(m) => json::copy_members(m),
                            _ => none,
                        }
                    } else {
                        none
                    }
                },
                _ => none,
            }
        },
        None => none,
    }
}

/// The rows of a change: an update gives its before-image and its after-image.
pub open spec fn decoded(v: JsonV, schema: SchemaV) -> Result<Seq<RowV>, FormatErrorV> {
    match v {
        JsonV::Object(o) => {
            let kind = text_member(o, "_type"@, "INSERT"@);
            let data = first_image(o, "data"@);
            let c = schema.columns;
            Ok(
                if kind == "UPDATE"@ {
                    seq![
                        row_of_members(RowKind::UpdateBefore, c, first_image(o, "old"@), Reading::Nested),
                        row_of_members(RowKind::UpdateAfter, c, data, Reading::Nested),
                    ]
                } else if kind == "DELETE"@ {
                    seq![row_of_members(RowKind::Delete, c, data, Reading::Nested)]
                } else {
                    seq![row_of_members(RowKind::Insert, c, data, Reading::Nested)]
                },
            )
        },
        _ => Err(FormatErrorV::NotAnObject),
    }
}

/// The kind of a change in a document.
pub open spec fn kind_text(k: RowKind) -> Seq<char> {
    match k {
        RowKind::Delete => "DELETE"@,
        RowKind::UpdateBefore => "UPDATE"@,
        RowKind::UpdateAfter => "UPDATE"@,
        RowKind::Insert => "INSERT"@,
    }
}

/// The document of a row at a time.
pub open spec fn encoded(schema: SchemaV, row: RowV, ts: i64) -> JsonV {
    let o = with_member(Seq::empty(), "_type"@, JsonV::Str(kind_text(row.kind)));
    let o = with_member(o, "_ts"@, JsonV::Int(ts as int));
    JsonV::Object(
        with_member(
            o,
            "data"@,
            JsonV::Array(seq![JsonV::Object(object_for(schema.columns, row.fields, Writing::Plain))]),
        ),
    )
}

/// The rows of a document.
pub fn read_value(v: &Json, schema: &TableSchema) -> (r: Result<Vec<Row>, FormatError>)
    ensures
        match (r, decoded(v@, schema@)) {
            (Ok(rows), Ok(w)) => rows_view(rows@) == w,
            (Err(e), Err(w)) => e@ == w,
            _ => false,
        },
{
    proof {
        json::lemma_json_parts(*v);
    }
    match v {
        Json::Object(o) => {
            let kind = find_text(o, "_type", "INSERT");
            let data = find_image(o, "data");
            let mut rows: Vec<Row> = Vec::new();
            if text::same(kind.as_str(), "UPDATE") {
                let old = find_image(o, "old");
                rows.push(read_row(RowKind::UpdateBefore, schema, &old, Reading::Nested));
                rows.push(read_row(RowKind::UpdateAfter, schema, &data, Reading::Nested));
            } else if text::same(kind.as_str(), "DELETE") {
                rows.push(read_row(RowKind::Delete, schema, &data, Reading::Nested));
            } else {
                rows.push(read_row(RowKind::Insert, schema, &data, Reading::Nested));
            }
            assert(rows_view(rows@) =~= decoded(v@, schema@)->Ok_0);
            Ok(rows)
        },
        _ => Err(FormatError::NotAnObject),
    }
}

/// The rows of a message.
pub fn deserialize(bytes: &[u8], schema: &TableSchema) -> (r: Result<Vec<Row>, FormatError>)
    ensures
        match json::parsed_json(bytes@) {
            Some(v) => match (r, decoded(v, schema@)) {
                (Ok(rows), Ok(w)) => rows_view(rows@) == w,
                (Err(e), Err(w)) => e@ == w,
                _ => false,
            },
            None => r is Err && r->Err_0@ == FormatErrorV::Json,
        },
{
    match json::read_json(bytes) {
        Ok(v) => read_value(&v, schema),
        Err(e) => Err(FormatError::Json(e)),
    }
}

fn kind_str(k: &RowKind) -> (r: &'static str)
    ensures
        r@ == kind_text(*k),
{
    match k {
        RowKind::Delete => "DELETE",
        RowKind::UpdateBefore => "UPDATE",
        RowKind::UpdateAfter => "UPDATE",
        RowKind::Insert => "INSERT",
    }
}

/// The document of a row at a time.
pub fn write_value(schema: &TableSchema, row: &Row, ts: i64) -> (r: Json)
    ensures
        r@ == encoded(schema@, row@, ts),
{
    let image = Json::Object(write_row(schema, row, Writing::Plain));
    let ghost iv = image@;
    let mut list: Vec<Json> = Vec::new();
    proof {
        json::lemma_json_parts(image);
    }
    list.push(image);
    let data = Json::Array(list);
    let mut o: Vec<(String, Json)> = Vec::new();
    proof {
        json::lemma_json_parts(data);
        assert(json::items_view(list@) =~= seq![iv]);
        assert(json::members_view(o@) =~= Seq::empty());
    }
    json::put(&mut o, "_type", Json::Str(text::owned(kind_str(&row.kind))));
    json::put(&mut o, "_ts", Json::Int(ts));
    json::put(&mut o, "data", data);
    let r = Json::Object(o);
    proof {
        json::lemma_json_parts(r);
    }
    r
}

/// The message of a row at a time.
pub fn serialize_at(schema: &TableSchema, row: &Row, ts: i64) -> (r: Result<Vec<u8>, FormatError>)
    ensures
        r is Ok,
        r->Ok_0@ == json::json_bytes(encoded(schema@, row@, ts)),
        json::readable(encoded(schema@, row@, ts)) ==> json::parsed_json(r->Ok_0@) == Some(
            encoded(schema@, row@, ts),
        ),
{
    let doc = write_value(schema, row, ts);
    match json::write_json(&doc) {
        Ok(b) => Ok(b),
        Err(e) => Err(FormatError::Json(e)),
    }
}

/// The message of a row at the current time.
pub fn serialize(schema: &TableSchema, row: &Row) -> (r: Result<Vec<u8>, FormatError>)
    ensures
        r is Ok,
        exists|ts: i64| r->Ok_0@ == #[trigger] json::json_bytes(encoded(schema@, row@, ts)),
{
    let ts = now_millis();
    serialize_at(schema, row, ts)
}

/// A row of plain fields that was inserted or deleted is read back as it was
/// written. Of an updated one the after-image is; its before-image is not written.
pub proof fn law_round_trip(schema: SchemaV, row: RowV, ts: i64)
    requires
        distinct_columns(schema.columns),
        row.fields.len() == schema.columns.len(),
        forall|i: int| 0 <= i < row.fields.len() ==> is_plain(#[trigger] row.fields[i]),
    ensures
        ({
            let d = decoded(encoded(schema, row, ts), schema);
            &&& d is Ok
            &&& row.kind is Insert || row.kind is Delete ==> d->Ok_0 == seq![
                RowV { kind: row.kind, fields: row.fields, origin: None },
            ]
            &&& row.kind is UpdateBefore || row.kind is UpdateAfter ==> d->Ok_0.len() == 2 && d->Ok_0[1] == (RowV {
                kind: RowKind::UpdateAfter,
                fields: row.fields,
                origin: None,
            })
        }),
{
    reveal_strlit("_type");
    reveal_strlit("_ts");
    reveal_strlit("data");
    reveal_strlit("INSERT");
    reveal_strlit("UPDATE");
    reveal_strlit("DELETE");
    assert("_type"@.len() == 5 && "_ts"@.len() == 3 && "data"@.len() == 4);
    assert("INSERT"@[0] == 'I' && "UPDATE"@[0] == 'U' && "DELETE"@[0] == 'D');
    let e = Seq::<(Seq<char>, JsonV)>::empty();
    let a = with_member(e, "_type"@, JsonV::Str(kind_text(row.kind)));
    json::lemma_with_member(e, "_type"@, JsonV::Str(kind_text(row.kind)));
    let b = with_member(a, "_ts"@, JsonV::Int(ts as int));
    json::lemma_with_member(a, "_ts"@, JsonV::Int(ts as int));
    let list = JsonV::Array(seq![JsonV::Object(object_for(schema.columns, row.fields, Writing::Plain))]);
    json::lemma_with_member(b, "data"@, list);
    law_row_round_trip(row.kind, schema.columns, row.fields, Reading::Nested, Writing::Plain);
    law_row_round_trip(RowKind::UpdateAfter, schema.columns, row.fields, Reading::Nested, Writing::Plain);
}

} // verus!
