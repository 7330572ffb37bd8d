//! Oracle GoldenGate's JSON: column names with the values before and after, in
//! lists.

use vstd::prelude::*;

use crate::formats::convert::{
    field_or_null, field_to_json, is_plain, json_for, json_to_field, law_field_round_trip, Reading, Writing,
};
use crate::formats::error::{FormatError, FormatErrorV};
use crate::json;
use crate::json::{member, with_member, Json, JsonV};
use crate::row::{empty_row, rows_view, ColumnV, Field, FieldV, Row, RowKind, RowV, SchemaV, TableSchema};
use crate::text;

verus! {

/// The items of a member that is a list; none when it is not.
pub open spec fn items_under(o: Seq<(Seq<char>, JsonV)>, key: Seq<char>) -> Seq<JsonV> {
    match member(o, key) {
        Some(JsonV::Array(a)) => a,
        _ => Seq::empty(),
    }
}

fn find_items(o: &Vec<(String, Json)>, key: &str) -> (r: Vec<Json>)
    ensures
        json::items_view(r@) == items_under(json::members_view(o@), key@),
{
    let none: Vec<Json> = Vec::new();
    assert(json::items_view(none@) =~= Seq::empty());
    match json::find(o, key) {
        Some(v) => {
            proof {
                json::lemma_json_parts(*v);
            }
            match v {
                Json::Array(a) => json::copy_items(a),
                _ => none,
            }
        },
        None => none,
    }
}

/// Whether an item names a column, whatever its case.
pub open spec fn names(item: JsonV, column: Seq<char>) -> bool {
    item is Str && text::equal_ignoring_case(item->Str_0, column)
}

/// The position of the first name of a column.
pub open spec fn position_of(cols: Seq<JsonV>, column: Seq<char>) -> Option<int>
    decreases cols.len(),
{
    if cols.len() == 0 {
        None
    } else {
        match position_of(cols.drop_last(), column) {
            Some(i) => Some(i),
            None => if names(cols.last(), column) { Some(cols.len() - 1) } else { None },
        }
    }
}

proof fn lemma_position_of(cols: Seq<JsonV>, column: Seq<char>)
    ensures
        match position_of(cols, column) {
            Some(i) => 0 <= i < cols.len() && names(cols[i], column) && forall|k: int|
                0 <= k < i ==> !names(#[trigger] cols[k], column),
            None => forall|k: int| 0 <= k < cols.len() ==> !names(#[trigger] cols[k], column),
        },
    decreases cols.len(),
{
    if cols.len() > 0 {
        let d = cols.drop_last();
        lemma_position_of(d, column);
        match position_of(d, column) {
            Some(i) => {
                assert forall|k: int| 0 <= k < i implies !names(#[trigger] cols[k], column) by {
                    assert(d[k] == cols[k]);
                }
            },
            None => {
                assert forall|k: int| 0 <= k < cols.len() - 1 implies !names(#[trigger] cols[k], column) by {
                    assert(d[k] == cols[k]);
                }
            },
        }
    }
}

/// The value of a column: that at the position of its name.
pub open spec fn value_at(cols: Seq<JsonV>, vals: Seq<JsonV>, column: Seq<char>) -> FieldV {
    match position_of(cols, column) {
        Some(j) => if j < vals.len() { field_or_null(Some(vals[j]), Reading::Flat) } else { FieldV::Null },
        None => FieldV::Null,
    }
}

/// The row of a list of values.
pub open spec fn row_of_values(kind: RowKind, columns: Seq<ColumnV>, cols: Seq<JsonV>, vals: Seq<JsonV>) -> RowV {
    RowV { kind, fields: columns.map_values(|c: ColumnV| value_at(cols, vals, c.name)), origin: None }
}

/// The operation of a document in upper case; empty when it has none.
pub open spec fn operation(o: Seq<(Seq<char>, JsonV)>) -> Seq<char> {
    match member(o, "OP_TYPE"@) {
        Some(JsonV::Str(s)) => text::upper_text(s),
        _ => Seq::empty(),
    }
}

/// The rows of a change, given its operation in upper case: an update gives its
/// before-image and its after-image.
pub open spec fn change(op: Seq<char>, o: Seq<(Seq<char>, JsonV)>, columns: Seq<ColumnV>) -> Seq<RowV> {
    let cols = items_under(o, "COLUMN_NAME"@);
    let after = items_under(o, "AFTER_VALUE"@);
    let before = items_under(o, "BEFORE_VALUE"@);
    if op == "DELETE"@ {
        seq![row_of_values(RowKind::Delete, columns, cols, before)]
    } else if op == "UPDATE"@ {
        seq![
            row_of_values(RowKind::UpdateBefore, columns, cols, before),
            row_of_values(RowKind::UpdateAfter, columns, cols, after),
        ]
    } else {
        seq![row_of_values(RowKind::Insert, columns, cols, after)]
    }
}

/// The rows of a document. It must be an object.
pub open spec fn decoded(v: JsonV, schema: SchemaV) -> Result<Seq<RowV>, FormatErrorV> {
    match v {
        JsonV::Object(o) => Ok(change(operation(o), o, schema.columns)),
        _ => Err(FormatErrorV::NotAnObject),
    }
}

/// The operation of a kind of change.
pub open spec fn op_text(k: RowKind) -> Seq<char> {
    match k {
        RowKind::Delete => "DELETE"@,
        RowKind::UpdateBefore => "MODIFY"@,
        RowKind::UpdateAfter => "MODIFY"@,
        RowKind::Insert => "INSERT"@,
    }
}

/// The value of a row at a column; one that it has no field for is null.
pub open spec fn value_for(fields: Seq<FieldV>, i: int) -> JsonV {
    if i < fields.len() { json_for(fields[i], Writing::Plain) } else { JsonV::Null }
}

/// The document of a row.
pub open spec fn encoded(schema: SchemaV, row: RowV) -> JsonV {
    let n = schema.columns.len();
    let o = with_member(Seq::empty(), "OP_TYPE"@, JsonV::Str(op_text(row.kind)));
    let o = with_member(
        o,
        "COLUMN_NAME"@,
        JsonV::Array(Seq::new(n, |i: int| JsonV::Str(schema.columns[i].name))),
    );
    JsonV::Object(
        with_member(o, "AFTER_VALUE"@, JsonV::Array(Seq::new(n, |i: int| value_for(row.fields, i)))),
    )
}

fn find_position(cols: &Vec<Json>, column: &str) -> (r: Option<usize>)
    ensures
        match r {
            Some(i) => i < cols@.len() && position_of(json::items_view(cols@), column@) == Some(i as int),
            None => position_of(json::items_view(cols@), column@) is None,
        },
{
    let ghost cv = json::items_view(cols@);
    let mut j: usize = 0;
    while j < cols.len()
        invariant
            j <= cols@.len(),
            cv == json::items_view(cols@),
            forall|k: int| 0 <= k < j ==> !names(#[trigger] cv[k], column@),
        decreases cols@.len() - j,
    {
        assert(cv[j as int] == cols@[j as int]@);
        let hit: bool = match cols[j].as_str() {
            Some(s) => text::same_ignoring_case(s.as_str(), column),
            None => false,
        };
        if hit {
            proof {
                lemma_position_of(cv, column@);
            }
            return Some(j);
        }
        j += 1;
    }
    proof {
        lemma_position_of(cv, column@);
    }
    None
}

fn read_values(kind: RowKind, schema: &TableSchema, cols: &Vec<Json>, vals: &Vec<Json>) -> (r: Row)
    ensures
        r@ == row_of_values(kind, schema@.columns, json::items_view(cols@), json::items_view(vals@)),
{
    let ghost cv = json::items_view(cols@);
    let ghost vv = json::items_view(vals@);
    let mut fields: Vec<Field> = Vec::new();
    let mut i: usize = 0;
    while i < schema.columns.len()
        invariant
            i <= schema.columns@.len(),
            cv == json::items_view(cols@),
            vv == json::items_view(vals@),
            fields@.len() == i,
            forall|k: int| 0 <= k < i ==> #[trigger] fields@[k]@ == value_at(cv, vv, schema.columns@[k].name@),
        decreases schema.columns@.len() - i,
    {
        let f = match find_position(cols, schema.columns[i].name.as_str()) {
            Some(j) => {
                if j < vals.len() {
                    assert(vv[j as int] == vals@[j as int]@);
                    json_to_field(&vals[j], Reading::Flat)
                } else {
                    Field::Null
                }
            },
            None => Field::Null,
        };
        fields.push(f);
        i += 1;
    }
    let r = Row { kind, fields, origin_table: None };
    assert(r@.fields =~= row_of_values(kind, schema@.columns, cv, vv).fields);
    r
}

/// The rows of a change, given its operation in upper case.
pub fn read_change(op: &str, o: &Vec<(String, Json)>, schema: &TableSchema) -> (r: Vec<Row>)
    ensures
        rows_view(r@) == change(op@, json::members_view(o@), schema@.columns),
{
    let cols = find_items(o, "COLUMN_NAME");
    let after = find_items(o, "AFTER_VALUE");
    let before = find_items(o, "BEFORE_VALUE");
    let mut rows: Vec<Row> = Vec::new();
    if text::same(op, "DELETE") {
        rows.push(read_values(RowKind::Delete, schema, &cols, &before));
    } else if text::same(op, "UPDATE") {
        rows.push(read_values(RowKind::UpdateBefore, schema, &cols, &before));
        rows.push(read_values(RowKind::UpdateAfter, schema, &cols, &after));
    } else {
        rows.push(read_values(RowKind::Insert, schema, &cols, &after));
    }
    assert(rows_view(rows@) =~= change(op@, json::members_view(o@), schema@.columns));
    rows
}

/// The rows of a document.
pub fn read_value(v: &Json, schema: &TableSchema) -> (r: Result<Vec<Row>, FormatError>)
    ensures
        match (r, decoded(v@, schema@)) {
            (Ok(rows), Ok(w)) => rows_view(rows@) == w,
            (Err(e), Err(w)) => e@ == w,
            _ => false,
        },
{
    proof {
        json::lemma_json_parts(*v);
    }
    match v {
        Json::Object(o) => {
            let op = match json::find(o, "OP_TYPE") {
                Some(t) => match t {
                    Json::Str(s) => text::to_upper(s.as_str()),
                    _ => String::new(),
                },
                None => String::new(),
            };
            Ok(read_change(op.as_str(), o, schema))
        },
        _ => Err(FormatError::NotAnObject),
    }
}

/// The rows of a message.
pub fn deserialize(bytes: &[u8], schema: &TableSchema) -> (r: Result<Vec<Row>, FormatError>)
    ensures
        match json::parsed_json(bytes@) {
            Some(v) => match (r, decoded(v, schema@)) {
                (Ok(rows), Ok(w)) => rows_view(rows@) == w,
                (Err(e), Err(w)) => e@ == w,
                _ => false,
            },
            None => r is Err && r->Err_0@ == FormatErrorV::Json,
        },
{
    match json::read_json(bytes) {
        Ok(v) => read_value(&v, schema),
        Err(e) => Err(FormatError::Json(e)),
    }
}

fn op_str(k: &RowKind) -> (r: &'static str)
    ensures
        r@ == op_text(*k),
{
    match k {
        RowKind::Delete => "DELETE",
        RowKind::UpdateBefore => "MODIFY",
        RowKind::UpdateAfter => "MODIFY",
        RowKind::Insert => "INSERT",
    }
}

/// The document of a row.
pub fn write_value(schema: &TableSchema, row: &Row) -> (r: Json)
    ensures
        r@ == encoded(schema@, row@),
{
    let ghost sv = schema@;
    let ghost fv = row@.fields;
    let mut cols: Vec<Json> = Vec::new();
    let mut vals: Vec<Json> = Vec::new();
    let mut i: usize = 0;
    while i < schema.columns.len()
        invariant
            i <= schema.columns@.len(),
            sv == schema@,
            fv == row@.fields,
            cols@.len() == i,
            vals@.len() == i,
            forall|k: int| 0 <= k < i ==> #[trigger] cols@[k]@ == JsonV::Str(sv.columns[k].name),
            forall|k: int| 0 <= k < i ==> #[trigger] vals@[k]@ == value_for(fv, k),
        decreases schema.columns@.len() - i,
    {
        cols.push(Json::Str(schema.columns[i].name.clone()));
        let v = if i < row.fields.len() {
            assert(fv[i as int] == row.fields@[i as int]@);
            field_to_json(&row.fields[i], Writing::Plain)
        } else {
            Json::Null
        };
        vals.push(v);
        i += 1;
    }
    let names = Json::Array(cols);
    let after = Json::Array(vals);
    let mut o: Vec<(String, Json)> = Vec::new();
    proof {
        json::lemma_json_parts(names);
        json::lemma_json_parts(after);
        assert(json::items_view(cols@) =~= Seq::new(sv.columns.len(), |i: int| JsonV::Str(sv.columns[i].name)));
        assert(json::items_view(vals@) =~= Seq::new(sv.columns.len(), |i: int| value_for(fv, i)));
        assert(json::members_view(o@) =~= Seq::empty());
    }
    json::put(&mut o, "OP_TYPE", Json::Str(text::owned(op_str(&row.kind))));
    json::put(&mut o, "COLUMN_NAME", names);
    json::put(&mut o, "AFTER_VALUE", after);
    let r = Json::Object(o);
    proof {
        json::lemma_json_parts(r);
    }
    r
}

/// The message of a row. It is read back as its document, as far as JSON holds it
/// exactly.
pub fn serialize(schema: &TableSchema, row: &Row) -> (r: Result<Vec<u8>, FormatError>)
    ensures
        r is Ok,
        r->Ok_0@ == json::json_bytes(encoded(schema@, row@)),
        json::readable(encoded(schema@, row@)) ==> json::parsed_json(r->Ok_0@) == Some(encoded(schema@, row@)),
{
    let doc = write_value(schema, row);
    match json::write_json(&doc) {
        Ok(b) => Ok(b),
        Err(e) => Err(FormatError::Json(e)),
    }
}

/// A row of plain fields is read back as it was written, where no two columns have
/// names that differ in their case only: an inserted one as it is, one of an update as
/// an inserted one. Of a deleted one the fields are not read back.
pub proof fn law_round_trip(schema: SchemaV, row: RowV)
    requires
        forall|i: int, j: int|
            0 <= i < j < schema.columns.len() ==> !text::equal_ignoring_case(
                (#[trigger] schema.columns[i]).name,
                (#[trigger] schema.columns[j]).name,
            ),
        row.fields.len() == schema.columns.len(),
        forall|i: int| 0 <= i < row.fields.len() ==> is_plain(#[trigger] row.fields[i]),
    ensures
        decoded(encoded(schema, row), schema) == Ok::<Seq<RowV>, FormatErrorV>(
            if row.kind is Delete {
                seq![empty_row(RowKind::Delete, schema.columns.len())]
            } else {
                seq![RowV { kind: RowKind::Insert, fields: row.fields, origin: None }]
            },
        ),
{
    reveal_strlit("OP_TYPE");
    reveal_strlit("COLUMN_NAME");
    reveal_strlit("AFTER_VALUE");
    reveal_strlit("BEFORE_VALUE");
    reveal_strlit("INSERT");
    reveal_strlit("MODIFY");
    reveal_strlit("UPDATE");
    reveal_strlit("DELETE");
    assert("BEFORE_VALUE"@.len() == 12);
    assert("OP_TYPE"@.len() == 7 && "COLUMN_NAME"@.len() == 11 && "AFTER_VALUE"@.len() == 11);
    assert("COLUMN_NAME"@[0] == 'C' && "AFTER_VALUE"@[0] == 'A');
    assert("INSERT"@[0] == 'I' && "MODIFY"@[0] == 'M' && "UPDATE"@[0] == 'U' && "DELETE"@[0] == 'D');
    let n = schema.columns.len();
    let cols = Seq::new(n, |i: int| JsonV::Str(schema.columns[i].name));
    let vals = Seq::new(n, |i: int| value_for(row.fields, i));
    let o0 = Seq::<(Seq<char>, JsonV)>::empty();
    json::lemma_with_member(o0, "OP_TYPE"@, JsonV::Str(op_text(row.kind)));
    let o1 = with_member(o0, "OP_TYPE"@, JsonV::Str(op_text(row.kind)));
    json::lemma_with_member(o1, "COLUMN_NAME"@, JsonV::Array(cols));
    let o2 = with_member(o1, "COLUMN_NAME"@, JsonV::Array(cols));
    json::lemma_with_member(o2, "AFTER_VALUE"@, JsonV::Array(vals));
    let o = with_member(o2, "AFTER_VALUE"@, JsonV::Array(vals));
    assert(encoded(schema, row) == JsonV::Object(o));
    assert(items_under(o, "COLUMN_NAME"@) == cols);
    assert(items_under(o, "AFTER_VALUE"@) == vals);
    let r = row_of_values(RowKind::Insert, schema.columns, cols, vals);
    assert forall|i: int| 0 <= i < n implies #[trigger] r.fields[i] == row.fields[i] by {
        let name = schema.columns[i].name;
        assert(names(cols[i], name));
        lemma_position_of(cols, name);
        match position_of(cols, name) {
            Some(j) => {
                if j < i {
                    assert(names(cols[j], name));
                    assert(!text::equal_ignoring_case(schema.columns[j].name, schema.columns[i].name));
                }
                if i < j {
                    assert(!names(cols[i], name));
                }
            },
            None => {
                assert(!names(cols[i], name));
            },
        }
        law_field_round_trip(row.fields[i], Reading::Flat, Writing::Plain);
    }
    assert(r.fields =~= row.fields);
    let op = op_text(row.kind);
    assert(text::ascii_raised(op) =~= op);
    assert(operation(o) == op);
    assert(member(o, "BEFORE_VALUE"@) is None);
    let none = row_of_values(RowKind::Delete, schema.columns, cols, Seq::empty());
    assert forall|i: int| 0 <= i < n implies #[trigger] none.fields[i] == FieldV::Null by {
        lemma_position_of(cols, schema.columns[i].name);
    }
    assert(none.fields =~= empty_row(RowKind::Delete, n).fields);
}

} // verus!
