//! What messages mean: which rows the members of a change message stand for, and what a
//! row is written as.

use vstd::prelude::*;

use crate::formats::canal_client_json;
use crate::formats::canal_json;
use crate::formats::compatible_debezium_json;
use crate::formats::compatible_kafka_connect_json;
use crate::formats::convert::{
    covered, field_of, fields_of, float_json, float_of_json, json_for, jsons_for, members_for, object_for,
    row_of_members, Reading, Writing,
};
use crate::formats::debezium_json;
use crate::formats::error::FormatErrorV;
use crate::formats::json as plain_json;
use crate::formats::maxwell_json;
use crate::formats::native;
use crate::formats::ogg_json;
use crate::json;
use crate::json::{field, member, sorted_members, with_member, JsonV};
use crate::row::{distinct_columns, shown, ColumnType, ColumnV, FieldV, RowKind, RowV, SchemaV};
use crate::text;

verus! {

/// The members of an object.
pub type MembersV = Seq<(Seq<char>, JsonV)>;

// ---------------------------------------------------------------------------
// Values
// ---------------------------------------------------------------------------

/// Whether a field is what a JSON value is read as. Booleans, texts and 64-bit numbers
/// are read as themselves, and other numbers in double precision, unless they stay texts.
/// Lists and objects are kept where nested values are read, are texts for clients, and
/// else are dropped.
pub open spec fn reads_as(v: JsonV, f: FieldV, reading: Reading) -> bool
    decreases v,
{
    match v {
        JsonV::Null => f is Null,
        JsonV::Bool(b) => f == FieldV::Bool(b),
        JsonV::Str(s) => f == FieldV::String(s),
        JsonV::Int(i) => {
            &&& i64::MIN <= i <= i64::MAX ==> f == FieldV::Int64(i as i64)
            &&& i64::MAX < i <= u64::MAX && !(reading is Client) ==> f == FieldV::UInt64(i as u64)
            &&& i64::MAX < i <= u64::MAX && reading is Client ==> (match float_of_json(text::decimal_text(i as nat)) {
                Some(t) => f == FieldV::Float64(t),
                None => f is Null,
            })
        },
        JsonV::Float(t) => if reading is Textual {
            f == FieldV::String(t)
        } else {
            match float_of_json(t) {
                Some(d) => f == FieldV::Float64(d),
                None => f is Null,
            }
        },
        JsonV::Array(a) => match reading {
            Reading::Nested => f matches FieldV::Array(fs) && fs.len() == a.len() && forall|i: int|
                0 <= i < a.len() ==> reads_as(#[trigger] a[i], fs[i], reading),
            Reading::Client => f == FieldV::String(json::json_text(v)),
            _ => f is Null,
        },
        JsonV::Object(_) => match reading {
            Reading::Nested => f == FieldV::Json(v),
            Reading::Client => f == FieldV::String(json::json_text(v)),
            _ => f is Null,
        },
    }
}

/// Whether a field is what a member that may be missing is read as.
pub open spec fn member_reads_as(v: Option<JsonV>, f: FieldV, reading: Reading) -> bool {
    match v {
        Some(j) => reads_as(j, f, reading),
        None => f is Null,
    }
}

proof fn lemma_fields_of(a: Seq<JsonV>, reading: Reading, n: nat)
    requires
        n <= a.len(),
    ensures
        fields_of(a.take(n as int), reading).len() == n,
        forall|i: int|
            0 <= i < n ==> #[trigger] fields_of(a.take(n as int), reading)[i] == field_of(a[i], reading),
    decreases n,
{
    if n > 0 {
        lemma_fields_of(a, reading, (n - 1) as nat);
        assert(a.take(n as int).drop_last() =~= a.take(n - 1));
        assert(a.take(n as int).last() == a[n - 1]);
    }
}

/// Every JSON value is read as the field that it means.
pub proof fn law_values_are_read(v: JsonV, reading: Reading)
    ensures
        reads_as(v, field_of(v, reading), reading),
    decreases v,
{
    match v {
        JsonV::Array(a) => {
            if reading is Nested {
                lemma_fields_of(a, reading, a.len());
                assert(a.take(a.len() as int) =~= a);
                assert forall|i: int| 0 <= i < a.len() implies reads_as(
                    #[trigger] a[i],
                    fields_of(a, reading)[i],
                    reading,
                ) by {
                    law_values_are_read(a[i], reading);
                }
            }
        },
        _ => {},
    }
}

/// Whether a JSON value is what a field is written as. Nothing, booleans, texts and
/// 64-bit numbers are written as themselves; 32-bit numbers too, except with the plainest
/// writing; unsigned and double-precision numbers, JSON and lists only with the fullest.
/// Everything else is written as it is shown.
pub open spec fn written_as(f: FieldV, v: JsonV, writing: Writing) -> bool
    decreases f,
{
    match f {
        FieldV::Null => v is Null,
        FieldV::Bool(b) => v == JsonV::Bool(b),
        FieldV::String(s) => v == JsonV::Str(s),
        FieldV::Int64(n) => v == JsonV::Int(n as int),
        FieldV::Int32(n) => v == if writing is Plain { JsonV::Str(text::signed_text(n as int)) } else { JsonV::Int(n as int) },
        FieldV::UInt64(n) => v == if writing is Full { JsonV::Int(n as int) } else { JsonV::Str(text::decimal_text(n as nat)) },
        FieldV::Float64(t) => v == if writing is Full { float_json(t) } else { JsonV::Str(t) },
        FieldV::Json(j) => writing is Full ==> v == j,
        FieldV::Array(fs) => writing is Full ==> (v matches JsonV::Array(a) && a.len() == fs.len() && forall|i: int|
            0 <= i < fs.len() ==> written_as(#[trigger] fs[i], a[i], writing)),
        _ => v == JsonV::Str(shown(f)),
    }
}

proof fn lemma_jsons_for(v: Seq<FieldV>, writing: Writing, n: nat)
    requires
        n <= v.len(),
    ensures
        jsons_for(v.take(n as int), writing).len() == n,
        forall|i: int| 0 <= i < n ==> #[trigger] jsons_for(v.take(n as int), writing)[i] == json_for(v[i], writing),
    decreases n,
{
    if n > 0 {
        lemma_jsons_for(v, writing, (n - 1) as nat);
        assert(v.take(n as int).drop_last() =~= v.take(n - 1));
        assert(v.take(n as int).last() == v[n - 1]);
    }
}

/// Every field is written as the JSON value that it means.
pub proof fn law_fields_are_written(f: FieldV, writing: Writing)
    ensures
        written_as(f, json_for(f, writing), writing),
    decreases f,
{
    match f {
        FieldV::Array(v) => {
            lemma_jsons_for(v, writing, v.len());
            assert(v.take(v.len() as int) =~= v);
            assert forall|i: int| 0 <= i < v.len() implies written_as(
                #[trigger] v[i],
                jsons_for(v, writing)[i],
                writing,
            ) by {
                law_fields_are_written(v[i], writing);
            }
        },
        _ => {},
    }
}

// ---------------------------------------------------------------------------
// Images
// ---------------------------------------------------------------------------

/// Whether a row is the image that the members of an object show: for each column the
/// field of the member of its name, empty when there is none.
pub open spec fn is_image(row: RowV, kind: RowKind, columns: Seq<ColumnV>, o: MembersV, reading: Reading) -> bool {
    &&& row.kind == kind
    &&& row.origin is None
    &&& row.fields.len() == columns.len()
    &&& forall|i: int|
        0 <= i < columns.len() ==> member_reads_as(member(o, (#[trigger] columns[i]).name), row.fields[i], reading)
}

proof fn lemma_image(kind: RowKind, columns: Seq<ColumnV>, o: MembersV, reading: Reading)
    ensures
        is_image(row_of_members(kind, columns, o, reading), kind, columns, o, reading),
{
    let r = row_of_members(kind, columns, o, reading);
    assert forall|i: int| 0 <= i < columns.len() implies member_reads_as(
        member(o, (#[trigger] columns[i]).name),
        r.fields[i],
        reading,
    ) by {
        match member(o, columns[i].name) {
            Some(v) => {
                law_values_are_read(v, reading);
            },
            None => {},
        }
    }
}

/// Whether an object shows a row: for each column that the row has a field for, the
/// member of its name is what the field is written as; it has no other members.
pub open spec fn shows(o: MembersV, columns: Seq<ColumnV>, fields: Seq<FieldV>, writing: Writing) -> bool {
    &&& forall|i: int|
        0 <= i < columns.len() && i < fields.len() ==> (member(o, (#[trigger] columns[i]).name) matches Some(v)
            && written_as(fields[i], v, writing))
    &&& forall|k: Seq<char>|
        (forall|i: int| 0 <= i < columns.len() && i < fields.len() ==> (#[trigger] columns[i]).name != k)
            ==> #[trigger] member(o, k) is None
}

proof fn lemma_shows_upto(columns: Seq<ColumnV>, fields: Seq<FieldV>, n: nat, writing: Writing)
    requires
        distinct_columns(columns),
        n <= columns.len(),
        n <= fields.len(),
    ensures
        sorted_members(members_for(columns, fields, n, writing)),
        forall|i: int|
            0 <= i < n ==> member(members_for(columns, fields, n, writing), (#[trigger] columns[i]).name) == Some(
                json_for(fields[i], writing),
            ),
        forall|k: Seq<char>|
            (forall|i: int| 0 <= i < n ==> (#[trigger] columns[i]).name != k) ==> #[trigger] member(
                members_for(columns, fields, n, writing),
                k,
            ) is None,
    decreases n,
{
    if n > 0 {
        let m = (n - 1) as nat;
        lemma_shows_upto(columns, fields, m, writing);
        let h = members_for(columns, fields, m, writing);
        json::lemma_with_member(h, columns[m as int].name, json_for(fields[m as int], writing));
        let r = members_for(columns, fields, n, writing);
        assert forall|i: int| 0 <= i < n implies member(r, (#[trigger] columns[i]).name) == Some(
            json_for(fields[i], writing),
        ) by {
            if i < m {
                assert(columns[i].name != columns[m as int].name);
            }
        }
        assert forall|k: Seq<char>|
            (forall|i: int| 0 <= i < n ==> (#[trigger] columns[i]).name != k) implies #[trigger] member(r, k) is None by {
            assert(columns[m as int].name != k);
            assert(member(h, k) is None);
        }
    }
}

/// A row is written as an object that shows it.
pub proof fn law_rows_are_written(columns: Seq<ColumnV>, fields: Seq<FieldV>, writing: Writing)
    requires
        distinct_columns(columns),
    ensures
        shows(object_for(columns, fields, writing), columns, fields, writing),
{
    let o = object_for(columns, fields, writing);
    let n = covered(columns, fields);
    lemma_shows_upto(columns, fields, n, writing);
    assert forall|i: int| 0 <= i < columns.len() && i < fields.len() implies (member(o, (#[trigger] columns[i]).name)
        matches Some(v) && written_as(fields[i], v, writing)) by {
        law_fields_are_written(fields[i], writing);
    }
}

/// The plain formats read a row from the members of an object, one of them from those of
/// its payload, and refuse what is no object.
pub proof fn law_plain_messages(v: JsonV, schema: SchemaV)
    ensures
        v matches JsonV::Object(o) ==> {
            let c = schema.columns;
            &&& plain_json::decoded(v, schema) matches Ok(r) && is_image(r, RowKind::Insert, c, o, Reading::Nested)
            &&& compatible_debezium_json::decoded(v, schema) matches Ok(r) && is_image(
                r,
                RowKind::Insert,
                c,
                o,
                Reading::Nested,
            )
            &&& native::decoded(v, schema) matches Ok(r) && is_image(r, RowKind::Insert, c, o, Reading::Textual)
            &&& member(o, "payload"@) matches Some(JsonV::Object(p)) ==> (compatible_kafka_connect_json::decoded(
                v,
                schema,
            ) matches Ok(r) && is_image(r, RowKind::Insert, c, p, Reading::Flat))
        },
        !(v is Object) ==> plain_json::decoded(v, schema) == Err::<RowV, FormatErrorV>(FormatErrorV::NotAnObject)
            && compatible_debezium_json::decoded(v, schema) == Err::<RowV, FormatErrorV>(FormatErrorV::NotAnObject)
            && native::decoded(v, schema) == Err::<RowV, FormatErrorV>(FormatErrorV::NotAnObject)
            && compatible_kafka_connect_json::decoded(v, schema) == Err::<RowV, FormatErrorV>(FormatErrorV::NotAnObject),
{
    if let JsonV::Object(o) = v {
        lemma_image(RowKind::Insert, schema.columns, o, Reading::Nested);
        lemma_image(RowKind::Insert, schema.columns, o, Reading::Textual);
        if let Some(JsonV::Object(p)) = member(o, "payload"@) {
            lemma_image(RowKind::Insert, schema.columns, p, Reading::Flat);
        }
    }
}

/// The plain formats write a row as an object that shows it.
pub proof fn law_plain_documents(schema: SchemaV, row: RowV)
    requires
        distinct_columns(schema.columns),
    ensures
        plain_json::encoded(schema, row) matches JsonV::Object(o) && shows(o, schema.columns, row.fields, Writing::Full),
        compatible_debezium_json::encoded(schema, row) matches JsonV::Object(o) && shows(
            o,
            schema.columns,
            row.fields,
            Writing::Plain,
        ),
        native::encoded(schema, row) matches JsonV::Object(o) && shows(o, schema.columns, row.fields, Writing::Narrow),
{
    law_rows_are_written(schema.columns, row.fields, Writing::Full);
    law_rows_are_written(schema.columns, row.fields, Writing::Plain);
    law_rows_are_written(schema.columns, row.fields, Writing::Narrow);
}

/// The type that Kafka Connect has for a column.
pub open spec fn is_connect_type(t: ColumnType, s: Seq<char>) -> bool {
    &&& t is Bool ==> s == "boolean"@
    &&& t is Int32 ==> s == "int32"@
    &&& t is Int64 ==> s == "int64"@
    &&& t is Float64 ==> s == "double"@
    &&& t is Bytes ==> s == "bytes"@
    &&& !(t is Bool || t is Int32 || t is Int64 || t is Float64 || t is Bytes) ==> s == "string"@
}

/// A Kafka Connect message shows the row as its payload, and says of each column in order
/// its name and its type.
pub proof fn law_connect_document(schema: SchemaV, row: RowV, i: int)
    requires
        distinct_columns(schema.columns),
        0 <= i < schema.columns.len(),
    ensures
        ({
            let v = compatible_kafka_connect_json::encoded(schema, row);
            &&& field(v, "payload"@) matches Some(JsonV::Object(o)) && shows(
                o,
                schema.columns,
                row.fields,
                Writing::Plain,
            )
            &&& field(v, "schema"@) matches Some(s) && field(s, "type"@) == Some(JsonV::Str("struct"@)) && (field(
                s,
                "fields"@,
            ) matches Some(JsonV::Array(a)) && a.len() == schema.columns.len() && field(a[i], "field"@) == Some(
                JsonV::Str(schema.columns[i].name),
            ) && (field(a[i], "type"@) matches Some(JsonV::Str(t)) && is_connect_type(schema.columns[i].column_type, t)))
        }),
{
    reveal_strlit("payload");
    reveal_strlit("schema");
    reveal_strlit("type");
    reveal_strlit("fields");
    reveal_strlit("field");
    assert("schema"@[0] != "fields"@[0]);
    law_rows_are_written(schema.columns, row.fields, Writing::Plain);
    let none = Seq::<(Seq<char>, JsonV)>::empty();
    let c = schema.columns[i];
    let t = JsonV::Str(compatible_kafka_connect_json::connect_type(c.column_type));
    json::lemma_with_member(none, "type"@, t);
    json::lemma_with_member(with_member(none, "type"@, t), "field"@, JsonV::Str(c.name));
    let list = JsonV::Array(schema.columns.map_values(|c: ColumnV| compatible_kafka_connect_json::column_entry(c)));
    let st = JsonV::Str("struct"@);
    json::lemma_with_member(none, "type"@, st);
    json::lemma_with_member(with_member(none, "type"@, st), "fields"@, list);
    let s = compatible_kafka_connect_json::schema_entry(schema.columns);
    json::lemma_with_member(none, "schema"@, s);
    json::lemma_with_member(
        with_member(none, "schema"@, s),
        "payload"@,
        JsonV::Object(object_for(schema.columns, row.fields, Writing::Plain)),
    );
}

// ---------------------------------------------------------------------------
// Canal
// ---------------------------------------------------------------------------

/// Whether a list has an object with these members first, or there is none and so are no
/// members.
pub open spec fn first_object(v: Option<JsonV>, m: MembersV) -> bool {
    match v {
        Some(JsonV::Array(a)) => if a.len() > 0 && a[0] is Object { a[0] == JsonV::Object(m) } else { m.len() == 0 },
        _ => m.len() == 0,
    }
}

/// What a Canal message means. An update is the old image and then the new one; a delete
/// and an insert are the one that they carry; a message that does not say what it is, or
/// something else, is an insert. What is no object is refused.
pub proof fn law_canal_messages(v: JsonV, schema: SchemaV, o: MembersV, data: MembersV, old: MembersV)
    requires
        v == JsonV::Object(o),
        first_object(member(o, "data"@), data),
        first_object(member(o, "old"@), old),
    ensures
        ({
            let c = schema.columns;
            let kind = member(o, "_type"@);
            let d = canal_json::decoded(v, schema);
            &&& kind == Some(JsonV::Str("UPDATE"@)) ==> (d matches Ok(rows) && rows.len() == 2 && is_image(
                rows[0],
                RowKind::UpdateBefore,
                c,
                old,
                Reading::Nested,
            ) && is_image(rows[1], RowKind::UpdateAfter, c, data, Reading::Nested))
            &&& kind == Some(JsonV::Str("DELETE"@)) ==> (d matches Ok(rows) && rows.len() == 1 && is_image(
                rows[0],
                RowKind::Delete,
                c,
                data,
                Reading::Nested,
            ))
            &&& kind != Some(JsonV::Str("UPDATE"@)) && kind != Some(JsonV::Str("DELETE"@)) ==> (d matches Ok(rows)
                && rows.len() == 1 && is_image(rows[0], RowKind::Insert, c, data, Reading::Nested))
        }),
        forall|w: JsonV|
            !(w is Object) ==> #[trigger] canal_json::decoded(w, schema) == Err::<Seq<RowV>, FormatErrorV>(
                FormatErrorV::NotAnObject,
            ),
{
    reveal_strlit("INSERT");
    reveal_strlit("UPDATE");
    reveal_strlit("DELETE");
    assert("INSERT"@[0] != "UPDATE"@[0]);
    assert("INSERT"@[0] != "DELETE"@[0]);
    assert("UPDATE"@[0] != "DELETE"@[0]);
    let none = Seq::<(Seq<char>, JsonV)>::empty();
    assert(data.len() == 0 ==> data =~= none);
    assert(old.len() == 0 ==> old =~= none);
    lemma_image(RowKind::UpdateBefore, schema.columns, old, Reading::Nested);
    lemma_image(RowKind::UpdateAfter, schema.columns, data, Reading::Nested);
    lemma_image(RowKind::Delete, schema.columns, data, Reading::Nested);
    lemma_image(RowKind::Insert, schema.columns, data, Reading::Nested);
}

/// What a Canal message says of a row: what happened, when, and its one image.
pub proof fn law_canal_document(schema: SchemaV, row: RowV, ts: i64)
    requires
        distinct_columns(schema.columns),
    ensures
        ({
            let v = canal_json::encoded(schema, row, ts);
            &&& row.kind is Insert ==> field(v, "_type"@) == Some(JsonV::Str("INSERT"@))
            &&& row.kind is Delete ==> field(v, "_type"@) == Some(JsonV::Str("DELETE"@))
            &&& row.kind is UpdateBefore || row.kind is UpdateAfter ==> field(v, "_type"@) == Some(JsonV::Str("UPDATE"@))
            &&& field(v, "_ts"@) == Some(JsonV::Int(ts as int))
            &&& field(v, "data"@) matches Some(JsonV::Array(a)) && a.len() == 1 && (a[0] matches JsonV::Object(o)
                && shows(o, schema.columns, row.fields, Writing::Plain))
            &&& field(v, "old"@) is None
        }),
{
    reveal_strlit("_type");
    reveal_strlit("_ts");
    reveal_strlit("data");
    reveal_strlit("old");
    assert("_ts"@[0] != "old"@[0]);
    law_rows_are_written(schema.columns, row.fields, Writing::Plain);
    let none = Seq::<(Seq<char>, JsonV)>::empty();
    let t = JsonV::Str(canal_json::kind_text(row.kind));
    json::lemma_with_member(none, "_type"@, t);
    let o1 = with_member(none, "_type"@, t);
    json::lemma_with_member(o1, "_ts"@, JsonV::Int(ts as int));
    let o2 = with_member(o1, "_ts"@, JsonV::Int(ts as int));
    let d = JsonV::Array(seq![JsonV::Object(object_for(schema.columns, row.fields, Writing::Plain))]);
    json::lemma_with_member(o2, "data"@, d);
}

// ---------------------------------------------------------------------------
// Debezium
// ---------------------------------------------------------------------------

/// Whether an object stands under a member, or none does and so are no members.
pub open spec fn object_under(v: Option<JsonV>, m: MembersV) -> bool {
    match v {
        Some(JsonV::Object(o)) => m == o,
        _ => m.len() == 0,
    }
}

/// Whether a row is the image of one side of a change; a column that this side does not
/// have comes from the other one.
pub open spec fn is_side(row: RowV, kind: RowKind, columns: Seq<ColumnV>, side: MembersV, other: MembersV) -> bool {
    &&& row.kind == kind
    &&& row.origin is None
    &&& row.fields.len() == columns.len()
    &&& forall|i: int|
        0 <= i < columns.len() ==> member_reads_as(
            if member(side, (#[trigger] columns[i]).name) is Some {
                member(side, columns[i].name)
            } else {
                member(other, columns[i].name)
            },
            row.fields[i],
            Reading::Nested,
        )
}

proof fn lemma_side(kind: RowKind, columns: Seq<ColumnV>, side: MembersV, other: MembersV)
    ensures
        is_side(debezium_json::row_of_images(kind, columns, side, other), kind, columns, side, other),
{
    let r = debezium_json::row_of_images(kind, columns, side, other);
    assert forall|i: int| 0 <= i < columns.len() implies member_reads_as(
        if member(side, (#[trigger] columns[i]).name) is Some {
            member(side, columns[i].name)
        } else {
            member(other, columns[i].name)
        },
        r.fields[i],
        Reading::Nested,
    ) by {
        match member(side, columns[i].name) {
            Some(v) => {
                law_values_are_read(v, Reading::Nested);
            },
            None => match member(other, columns[i].name) {
                Some(v) => {
                    law_values_are_read(v, Reading::Nested);
                },
                None => {},
            },
        }
    }
}

/// What a Debezium message means. An update is its before-side and then its after-side; a
/// delete is its before-side; anything else is an insert of its after-side.
pub proof fn law_debezium_messages(v: JsonV, schema: SchemaV, o: MembersV, before: MembersV, after: MembersV)
    requires
        v == JsonV::Object(o),
        object_under(member(o, "before"@), before),
        object_under(member(o, "after"@), after),
    ensures
        ({
            let c = schema.columns;
            let op = member(o, "op"@);
            let d = debezium_json::decoded(v, schema);
            &&& op == Some(JsonV::Str("u"@)) ==> (d matches Ok(rows) && rows.len() == 2 && is_side(
                rows[0],
                RowKind::UpdateBefore,
                c,
                before,
                after,
            ) && is_side(rows[1], RowKind::UpdateAfter, c, after, before))
            &&& op == Some(JsonV::Str("d"@)) ==> (d matches Ok(rows) && rows.len() == 1 && is_side(
                rows[0],
                RowKind::Delete,
                c,
                before,
                after,
            ))
            &&& op != Some(JsonV::Str("u"@)) && op != Some(JsonV::Str("d"@)) ==> (d matches Ok(rows) && rows.len() == 1
                && is_side(rows[0], RowKind::Insert, c, after, before))
        }),
        forall|w: JsonV|
            !(w is Object) ==> #[trigger] debezium_json::decoded(w, schema) == Err::<Seq<RowV>, FormatErrorV>(
                FormatErrorV::NotAnObject,
            ),
{
    reveal_strlit("c");
    reveal_strlit("u");
    reveal_strlit("d");
    assert("c"@[0] != "u"@[0]);
    assert("c"@[0] != "d"@[0]);
    assert("u"@[0] != "d"@[0]);
    let none = Seq::<(Seq<char>, JsonV)>::empty();
    assert(before.len() == 0 ==> before =~= none);
    assert(after.len() == 0 ==> after =~= none);
    lemma_side(RowKind::UpdateBefore, schema.columns, before, after);
    lemma_side(RowKind::UpdateAfter, schema.columns, after, before);
    lemma_side(RowKind::Delete, schema.columns, before, after);
    lemma_side(RowKind::Insert, schema.columns, after, before);
}

/// What a Debezium message says of a row: what happened, when, and its image on the sides
/// that the change has.
pub proof fn law_debezium_document(schema: SchemaV, row: RowV, ts: i64)
    requires
        distinct_columns(schema.columns),
    ensures
        ({
            let v = debezium_json::encoded(schema, row, ts);
            let image = |s: Option<JsonV>|
                s matches Some(JsonV::Object(o)) && shows(o, schema.columns, row.fields, Writing::Plain);
            &&& row.kind is Insert ==> field(v, "op"@) == Some(JsonV::Str("c"@))
            &&& row.kind is Delete ==> field(v, "op"@) == Some(JsonV::Str("d"@))
            &&& row.kind is UpdateBefore || row.kind is UpdateAfter ==> field(v, "op"@) == Some(JsonV::Str("u"@))
            &&& row.kind is Insert || row.kind is UpdateAfter ==> image(field(v, "after"@))
            &&& row.kind is Delete || row.kind is UpdateBefore ==> field(v, "after"@) is None
            &&& row.kind is Insert ==> field(v, "before"@) is None
            &&& !(row.kind is Insert) ==> image(field(v, "before"@))
            &&& field(v, "ts_ms"@) == Some(JsonV::Int(ts as int))
            &&& field(v, "source"@) matches Some(s) && field(s, "ts_ms"@) == Some(JsonV::Int(ts as int))
        }),
{
    reveal_strlit("op");
    reveal_strlit("after");
    reveal_strlit("before");
    reveal_strlit("ts_ms");
    reveal_strlit("source");
    assert("after"@[0] != "ts_ms"@[0]);
    assert("before"@[0] != "source"@[0]);
    law_rows_are_written(schema.columns, row.fields, Writing::Plain);
    let none = Seq::<(Seq<char>, JsonV)>::empty();
    let image = JsonV::Object(object_for(schema.columns, row.fields, Writing::Plain));
    json::lemma_with_member(none, "after"@, image);
    let o1 = if row.kind is Insert || row.kind is UpdateAfter { with_member(none, "after"@, image) } else { none };
    json::lemma_with_member(o1, "before"@, image);
    let o2 = if row.kind is Insert { o1 } else { with_member(o1, "before"@, image) };
    let op = JsonV::Str(debezium_json::op_text(row.kind));
    json::lemma_with_member(o2, "op"@, op);
    let o3 = with_member(o2, "op"@, op);
    let at = JsonV::Int(ts as int);
    json::lemma_with_member(none, "ts_ms"@, at);
    let source = JsonV::Object(with_member(none, "ts_ms"@, at));
    json::lemma_with_member(o3, "source"@, source);
    json::lemma_with_member(with_member(o3, "source"@, source), "ts_ms"@, at);
}

// ---------------------------------------------------------------------------
// Maxwell
// ---------------------------------------------------------------------------

/// What a Maxwell message means. An update is the old image and then the new one; a
/// delete and an insert are the one that they carry; anything else is an insert.
pub proof fn law_maxwell_messages(v: JsonV, schema: SchemaV, o: MembersV, data: MembersV, old: MembersV)
    requires
        v == JsonV::Object(o),
        object_under(member(o, "data"@), data),
        object_under(member(o, "old"@), old),
    ensures
        ({
            let c = schema.columns;
            let kind = member(o, "type"@);
            let d = maxwell_json::decoded(v, schema);
            &&& kind == Some(JsonV::Str("update"@)) ==> (d matches Ok(rows) && rows.len() == 2 && is_image(
                rows[0],
                RowKind::UpdateBefore,
                c,
                old,
                Reading::Flat,
            ) && is_image(rows[1], RowKind::UpdateAfter, c, data, Reading::Flat))
            &&& kind == Some(JsonV::Str("delete"@)) ==> (d matches Ok(rows) && rows.len() == 1 && is_image(
                rows[0],
                RowKind::Delete,
                c,
                data,
                Reading::Flat,
            ))
            &&& kind != Some(JsonV::Str("update"@)) && kind != Some(JsonV::Str("delete"@)) ==> (d matches Ok(rows)
                && rows.len() == 1 && is_image(rows[0], RowKind::Insert, c, data, Reading::Flat))
        }),
        forall|w: JsonV|
            !(w is Object) ==> #[trigger] maxwell_json::decoded(w, schema) == Err::<Seq<RowV>, FormatErrorV>(
                FormatErrorV::NotAnObject,
            ),
{
    reveal_strlit("insert");
    reveal_strlit("update");
    reveal_strlit("delete");
    assert("insert"@[0] != "update"@[0]);
    assert("insert"@[0] != "delete"@[0]);
    assert("update"@[0] != "delete"@[0]);
    let none = Seq::<(Seq<char>, JsonV)>::empty();
    assert(data.len() == 0 ==> data =~= none);
    assert(old.len() == 0 ==> old =~= none);
    lemma_image(RowKind::UpdateBefore, schema.columns, old, Reading::Flat);
    lemma_image(RowKind::UpdateAfter, schema.columns, data, Reading::Flat);
    lemma_image(RowKind::Delete, schema.columns, data, Reading::Flat);
    lemma_image(RowKind::Insert, schema.columns, data, Reading::Flat);
}

/// What a Maxwell message says of a row: its table, what happened, and its image, for a
/// before-image on both sides.
pub proof fn law_maxwell_document(schema: SchemaV, row: RowV)
    requires
        distinct_columns(schema.columns),
    ensures
        ({
            let v = maxwell_json::encoded(schema, row);
            let image = |s: Option<JsonV>|
                s matches Some(JsonV::Object(o)) && shows(o, schema.columns, row.fields, Writing::Plain);
            &&& row.kind is Insert ==> field(v, "type"@) == Some(JsonV::Str("insert"@))
            &&& row.kind is Delete ==> field(v, "type"@) == Some(JsonV::Str("delete"@))
            &&& row.kind is UpdateBefore || row.kind is UpdateAfter ==> field(v, "type"@) == Some(JsonV::Str("update"@))
            &&& image(field(v, "data"@))
            &&& row.kind is UpdateBefore ==> image(field(v, "old"@))
            &&& !(row.kind is UpdateBefore) ==> field(v, "old"@) is None
            &&& field(v, "table"@) == Some(JsonV::Str(schema.table))
            &&& field(v, "database"@) == Some(JsonV::Str("default"@))
            &&& field(v, "xoffset"@) == Some(JsonV::Int(0))
            &&& field(v, "commit"@) == Some(JsonV::Bool(true))
        }),
{
    reveal_strlit("database");
    reveal_strlit("table");
    reveal_strlit("type");
    reveal_strlit("xoffset");
    reveal_strlit("commit");
    reveal_strlit("old");
    reveal_strlit("data");
    assert("type"@[0] != "data"@[0]);
    law_rows_are_written(schema.columns, row.fields, Writing::Plain);
    let image = JsonV::Object(object_for(schema.columns, row.fields, Writing::Plain));
    let o0 = Seq::<(Seq<char>, JsonV)>::empty();
    json::lemma_with_member(o0, "database"@, JsonV::Str("default"@));
    let o1 = with_member(o0, "database"@, JsonV::Str("default"@));
    json::lemma_with_member(o1, "table"@, JsonV::Str(schema.table));
    let o2 = with_member(o1, "table"@, JsonV::Str(schema.table));
    let t = JsonV::Str(maxwell_json::kind_text(row.kind));
    json::lemma_with_member(o2, "type"@, t);
    let o3 = with_member(o2, "type"@, t);
    json::lemma_with_member(o3, "xoffset"@, JsonV::Int(0));
    let o4 = with_member(o3, "xoffset"@, JsonV::Int(0));
    json::lemma_with_member(o4, "commit"@, JsonV::Bool(true));
    let o5 = with_member(o4, "commit"@, JsonV::Bool(true));
    json::lemma_with_member(o5, "old"@, image);
    let o6 = if row.kind is UpdateBefore { with_member(o5, "old"@, image) } else { o5 };
    json::lemma_with_member(o6, "data"@, image);
}

// ---------------------------------------------------------------------------
// Oracle GoldenGate
// ---------------------------------------------------------------------------

/// Whether a list stands under a member, or none does and so are no items.
pub open spec fn list_under(v: Option<JsonV>, a: Seq<JsonV>) -> bool {
    match v {
        Some(JsonV::Array(items)) => a == items,
        _ => a.len() == 0,
    }
}

/// Whether an item names a column, whatever the case.
pub open spec fn is_name(item: JsonV, column: Seq<char>) -> bool {
    item matches JsonV::Str(s) && text::equal_ignoring_case(s, column)
}

/// Whether a row has, for each column, what stands in the list of values where its name
/// stands first in the list of names; a column that is not named, or has no value there,
/// is empty.
pub open spec fn is_listed(row: RowV, kind: RowKind, columns: Seq<ColumnV>, names: Seq<JsonV>, vals: Seq<JsonV>) -> bool {
    &&& row.kind == kind
    &&& row.origin is None
    &&& row.fields.len() == columns.len()
    &&& forall|i: int, j: int|
        0 <= i < columns.len() && 0 <= j < names.len() && is_name(#[trigger] names[j], (#[trigger] columns[i]).name) && (
        forall|k: int| 0 <= k < j ==> !is_name(#[trigger] names[k], columns[i].name)) ==> if j < vals.len() {
            reads_as(vals[j], row.fields[i], Reading::Flat)
        } else {
            row.fields[i] is Null
        }
    &&& forall|i: int|
        0 <= i < columns.len() && (forall|k: int| 0 <= k < names.len() ==> !is_name(#[trigger] names[k], columns[i].name))
            ==> (#[trigger] row.fields[i]) is Null
}

proof fn lemma_named_at(cols: Seq<JsonV>, column: Seq<char>)
    ensures
        match ogg_json::position_of(cols, column) {
            Some(i) => 0 <= i < cols.len() && is_name(cols[i], column) && forall|k: int|
                0 <= k < i ==> !is_name(#[trigger] cols[k], column),
            None => forall|k: int| 0 <= k < cols.len() ==> !is_name(#[trigger] cols[k], column),
        },
    decreases cols.len(),
{
    if cols.len() > 0 {
        let d = cols.drop_last();
        lemma_named_at(d, column);
        match ogg_json::position_of(d, column) {
            Some(i) => {
                assert(is_name(d[i], column));
                assert forall|k: int| 0 <= k < i implies !is_name(#[trigger] cols[k], column) by {
                    assert(d[k] == cols[k]);
                }
            },
            None => {
                assert forall|k: int| 0 <= k < cols.len() - 1 implies !is_name(#[trigger] cols[k], column) by {
                    assert(d[k] == cols[k]);
                }
            },
        }
    }
}

proof fn lemma_listed(kind: RowKind, columns: Seq<ColumnV>, names: Seq<JsonV>, vals: Seq<JsonV>)
    ensures
        is_listed(ogg_json::row_of_values(kind, columns, names, vals), kind, columns, names, vals),
{
    let r = ogg_json::row_of_values(kind, columns, names, vals);
    assert forall|i: int, j: int|
        0 <= i < columns.len() && 0 <= j < names.len() && is_name(#[trigger] names[j], (#[trigger] columns[i]).name) && (
        forall|k: int| 0 <= k < j ==> !is_name(#[trigger] names[k], columns[i].name)) implies if j < vals.len() {
        reads_as(vals[j], r.fields[i], Reading::Flat)
    } else {
        r.fields[i] is Null
    } by {
        lemma_named_at(names, columns[i].name);
        let p = ogg_json::position_of(names, columns[i].name)->0;
        if p != j {
            if p < j {
                assert(is_name(names[p], columns[i].name));
            } else {
                assert(!is_name(names[j], columns[i].name));
            }
        }
        if j < vals.len() {
            law_values_are_read(vals[j], Reading::Flat);
        }
    }
    assert forall|i: int|
        0 <= i < columns.len() && (forall|k: int| 0 <= k < names.len() ==> !is_name(#[trigger] names[k], columns[i].name)) implies (
    #[trigger] r.fields[i]) is Null by {
        lemma_named_at(names, columns[i].name);
    }
}

/// What a GoldenGate message means, in whatever case it says what happened. An update is
/// the values before and then the values after; a delete is the values before; anything
/// else is an insert of the values after.
pub proof fn law_ogg_messages(
    v: JsonV,
    schema: SchemaV,
    o: MembersV,
    op: Seq<char>,
    names: Seq<JsonV>,
    before: Seq<JsonV>,
    after: Seq<JsonV>,
)
    requires
        v == JsonV::Object(o),
        member(o, "OP_TYPE"@) == Some(JsonV::Str(op)),
        text::ascii_only(op),
        list_under(member(o, "COLUMN_NAME"@), names),
        list_under(member(o, "BEFORE_VALUE"@), before),
        list_under(member(o, "AFTER_VALUE"@), after),
    ensures
        ({
            let c = schema.columns;
            let d = ogg_json::decoded(v, schema);
            let said = text::ascii_raised(op);
            &&& said == "UPDATE"@ ==> (d matches Ok(rows) && rows.len() == 2 && is_listed(
                rows[0],
                RowKind::UpdateBefore,
                c,
                names,
                before,
            ) && is_listed(rows[1], RowKind::UpdateAfter, c, names, after))
            &&& said == "DELETE"@ ==> (d matches Ok(rows) && rows.len() == 1 && is_listed(
                rows[0],
                RowKind::Delete,
                c,
                names,
                before,
            ))
            &&& said != "UPDATE"@ && said != "DELETE"@ ==> (d matches Ok(rows) && rows.len() == 1 && is_listed(
                rows[0],
                RowKind::Insert,
                c,
                names,
                after,
            ))
        }),
        forall|w: JsonV|
            !(w is Object) ==> #[trigger] ogg_json::decoded(w, schema) == Err::<Seq<RowV>, FormatErrorV>(
                FormatErrorV::NotAnObject,
            ),
{
    reveal_strlit("UPDATE");
    reveal_strlit("DELETE");
    assert("UPDATE"@[0] != "DELETE"@[0]);
    let none = Seq::<JsonV>::empty();
    assert(names.len() == 0 ==> names =~= none);
    assert(before.len() == 0 ==> before =~= none);
    assert(after.len() == 0 ==> after =~= none);
    lemma_listed(RowKind::UpdateBefore, schema.columns, names, before);
    lemma_listed(RowKind::UpdateAfter, schema.columns, names, after);
    lemma_listed(RowKind::Delete, schema.columns, names, before);
    lemma_listed(RowKind::Insert, schema.columns, names, after);
}

/// What a GoldenGate message says of a row: what happened, the names of the columns, and
/// their values behind it, in the same order.
pub proof fn law_ogg_document(schema: SchemaV, row: RowV, i: int)
    requires
        0 <= i < schema.columns.len(),
    ensures
        ({
            let v = ogg_json::encoded(schema, row);
            &&& row.kind is Insert ==> field(v, "OP_TYPE"@) == Some(JsonV::Str("INSERT"@))
            &&& row.kind is Delete ==> field(v, "OP_TYPE"@) == Some(JsonV::Str("DELETE"@))
            &&& row.kind is UpdateBefore || row.kind is UpdateAfter ==> field(v, "OP_TYPE"@) == Some(
                JsonV::Str("MODIFY"@),
            )
            &&& field(v, "COLUMN_NAME"@) matches Some(JsonV::Array(a)) && a.len() == schema.columns.len() && a[i]
                == JsonV::Str(schema.columns[i].name)
            &&& field(v, "AFTER_VALUE"@) matches Some(JsonV::Array(a)) && a.len() == schema.columns.len() && (if i
                < row.fields.len() {
                written_as(row.fields[i], a[i], Writing::Plain)
            } else {
                a[i] is Null
            })
        }),
{
    reveal_strlit("OP_TYPE");
    reveal_strlit("COLUMN_NAME");
    reveal_strlit("AFTER_VALUE");
    assert("COLUMN_NAME"@[0] != "AFTER_VALUE"@[0]);
    let n = schema.columns.len();
    let cols = JsonV::Array(Seq::new(n, |i: int| JsonV::Str(schema.columns[i].name)));
    let vals = JsonV::Array(Seq::new(n, |i: int| ogg_json::value_for(row.fields, i)));
    let o0 = Seq::<(Seq<char>, JsonV)>::empty();
    let op = JsonV::Str(ogg_json::op_text(row.kind));
    json::lemma_with_member(o0, "OP_TYPE"@, op);
    let o1 = with_member(o0, "OP_TYPE"@, op);
    json::lemma_with_member(o1, "COLUMN_NAME"@, cols);
    let o2 = with_member(o1, "COLUMN_NAME"@, cols);
    json::lemma_with_member(o2, "AFTER_VALUE"@, vals);
    if i < row.fields.len() {
        law_fields_are_written(row.fields[i], Writing::Plain);
    }
}

// ---------------------------------------------------------------------------
// Canal client
// ---------------------------------------------------------------------------

/// What a client's message means: its event says what happened, an insert where it says
/// nothing else, and the members of its data are the row.
pub proof fn law_client_messages(v: JsonV, schema: SchemaV, data: MembersV)
    requires
        field(v, "data"@) == Some(JsonV::Object(data)),
    ensures
        ({
            let r = canal_client_json::decoded(v, schema);
            let event = field(v, "eventType"@);
            &&& event == Some(JsonV::Str("update"@)) ==> is_image(
                r,
                RowKind::UpdateAfter,
                schema.columns,
                data,
                Reading::Client,
            )
            &&& event == Some(JsonV::Str("delete"@)) ==> is_image(r, RowKind::Delete, schema.columns, data, Reading::Client)
            &&& event != Some(JsonV::Str("update"@)) && event != Some(JsonV::Str("delete"@)) ==> is_image(
                r,
                RowKind::Insert,
                schema.columns,
                data,
                Reading::Client,
            )
        }),
{
    reveal_strlit("update");
    reveal_strlit("delete");
    assert("update"@[0] != "delete"@[0]);
    let r = canal_client_json::decoded(v, schema);
    assert forall|i: int| 0 <= i < schema.columns.len() implies member_reads_as(
        member(data, (#[trigger] schema.columns[i]).name),
        r.fields[i],
        Reading::Client,
    ) by {
        match member(data, schema.columns[i].name) {
            Some(j) => {
                law_values_are_read(j, Reading::Client);
            },
            None => {},
        }
    }
}

} // verus!
