//! Fields and rows to and from JSON.

use vstd::prelude::*;

use crate::json;
use crate::json::{member, with_member, Json, JsonV};
use crate::row::{fields_view, lemma_field_parts, shown, ColumnV, Field, FieldV, Row, RowKind, RowV, TableSchema};
use crate::text;

verus! {

// ---------------------------------------------------------------------------
// Numbers
// ---------------------------------------------------------------------------

/// The text of the double-precision number that a JSON number stands for, if the
/// text is one: what `serde_json::Number::as_f64` gives, as the standard library
/// writes it.
pub uninterp spec fn float_of_json(number: Seq<char>) -> Option<Seq<char>>;

/// The JSON text of a double-precision number, unless it is not finite: what
/// `serde_json::Number::from_f64` gives.
pub uninterp spec fn json_of_float(number: Seq<char>) -> Option<Seq<char>>;

/// Calls `serde_json::Number::as_f64` on the JSON number that `number` holds, and
/// writes the result as the standard library does. The number's text is read by the
/// standard library, which gives the nearest double: the one that the text was written
/// for. The result is a function of the text; nothing else is claimed of it.
#[verifier::external_body]
pub(crate) fn read_float(number: &str) -> (r: Option<String>)
    ensures
        match r {
            Some(t) => float_of_json(number@) == Some(t@),
            None => float_of_json(number@) is None,
        },
{
    serde_json::Number::from_f64(number.parse().ok()?)?.as_f64().map(|v| v.to_string())
}

/// Calls `serde_json::Number::from_f64` on the number that `number` holds, which
/// gives none for infinities and for what is not a number. The JSON text is a
/// function of the text; nothing else is claimed of it.
#[verifier::external_body]
pub(crate) fn write_float(number: &str) -> (r: Option<String>)
    ensures
        match r {
            Some(t) => json_of_float(number@) == Some(t@),
            None => json_of_float(number@) is None,
        },
{
    serde_json::Number::from_f64(number.parse().ok()?).map(|n| n.to_string())
}

/// A double-precision number as JSON; what JSON cannot hold is null.
pub open spec fn float_json(t: Seq<char>) -> JsonV {
    match json_of_float(t) {
        Some(n) => JsonV::Float(n),
        None => JsonV::Null,
    }
}

/// A double-precision number as JSON.
pub(crate) fn float_to_json(t: &str) -> (r: Json)
    ensures
        r@ == float_json(t@),
{
    match write_float(t) {
        Some(n) => Json::Float(n),
        None => Json::Null,
    }
}

// ---------------------------------------------------------------------------
// JSON to fields
// ---------------------------------------------------------------------------

/// What becomes of the values that are no plain ones.
#[derive(Debug, Clone, Copy, PartialEq, Eq, Structural)]
pub enum Reading {
    /// Lists become lists of fields, objects stay JSON.
    Nested,
    /// Lists and objects are dropped.
    Flat,
    /// So they are, and a number that is not whole stays a text.
    Textual,
    /// Lists and objects become their JSON text, and whole numbers above the
    /// signed range become double-precision numbers.
    Client,
}

/// The double-precision number of a JSON number.
pub open spec fn float_field(number: Seq<char>) -> FieldV {
    match float_of_json(number) {
        Some(t) => FieldV::Float64(t),
        None => FieldV::Null,
    }
}

/// The field that a JSON value stands for.
pub open spec fn field_of(v: JsonV, reading: Reading) -> FieldV
    decreases v,
{
    match v {
        JsonV::Null => FieldV::Null,
        JsonV::Bool(b) => FieldV::Bool(b),
        JsonV::Int(i) => if i64::MIN <= i <= i64::MAX {
            FieldV::Int64(i as i64)
        } else if reading is Client {
            float_field(text::decimal_text(i as nat))
        } else {
            FieldV::UInt64(i as u64)
        },
        JsonV::Float(t) => if reading is Textual { FieldV::String(t) } else { float_field(t) },
        JsonV::Str(s) => FieldV::String(s),
        JsonV::Array(a) => match reading {
            Reading::Nested => FieldV::Array(fields_of(a, reading)),
            Reading::Client => FieldV::String(json::json_text(v)),
            _ => FieldV::Null,
        },
        JsonV::Object(_) => match reading {
            Reading::Nested => FieldV::Json(v),
            Reading::Client => FieldV::String(json::json_text(v)),
            _ => FieldV::Null,
        },
    }
}

/// The fields that some JSON values stand for.
pub open spec fn fields_of(a: Seq<JsonV>, reading: Reading) -> Seq<FieldV>
    decreases a,
{
    if a.len() == 0 {
        Seq::empty()
    } else {
        fields_of(a.drop_last(), reading).push(field_of(a.last(), reading))
    }
}

/// The field of a value that may be missing.
pub open spec fn field_or_null(v: Option<JsonV>, reading: Reading) -> FieldV {
    match v {
        Some(j) => field_of(j, reading),
        None => FieldV::Null,
    }
}

fn read_fields(items: &Vec<Json>, reading: Reading) -> (r: Vec<Field>)
    ensures
        fields_view(r@) == fields_of(json::items_view(items@), reading),
    decreases items,
{
    let ghost a = json::items_view(items@);
    let mut out: Vec<Field> = Vec::new();
    let mut i: usize = 0;
    proof {
        assert(a.take(0) =~= Seq::empty());
        assert(fields_view(out@) =~= Seq::empty());
    }
    while i < items.len()
        invariant
            i <= items@.len(),
            a == json::items_view(items@),
            fields_view(out@) == fields_of(a.take(i as int), reading),
        decreases items@.len() - i,
    {
        proof {
            assert(a.take(i + 1).drop_last() =~= a.take(i as int));
            assert(a.take(i + 1).last() == items@[i as int]@);
        }
        let ghost prev = out@;
        let f = json_to_field(&items[i], reading);
        let ghost fv = f@;
        out.push(f);
        assert(fields_view(out@) =~= fields_view(prev).push(fv));
        i += 1;
    }
    assert(a.take(a.len() as int) =~= a);
    out
}

fn float_field_of(number: &str) -> (r: Field)
    ensures
        r@ == float_field(number@),
{
    match read_float(number) {
        Some(t) => Field::Float64(t),
        None => Field::Null,
    }
}

/// The field that a JSON value stands for.
pub fn json_to_field(v: &Json, reading: Reading) -> (r: Field)
    ensures
        r@ == field_of(v@, reading),
    decreases v,
{
    proof {
        json::lemma_json_parts(*v);
    }
    match v {
        Json::Null => Field::Null,
        Json::Bool(b) => Field::Bool(*b),
        Json::Int(i) => Field::Int64(*i),
        Json::UInt(u) => if *u <= 9223372036854775807u64 {
            Field::Int64(*u as i64)
        } else if reading == Reading::Client {
            let number = text::decimal(*u);
            float_field_of(number.as_str())
        } else {
            Field::UInt64(*u)
        },
        Json::Float(t) => if reading == Reading::Textual {
            Field::String(t.clone())
        } else {
            float_field_of(t.as_str())
        },
        Json::Str(s) => Field::String(s.clone()),
        Json::Array(a) => match reading {
            Reading::Nested => {
                let r = Field::Array(read_fields(a, reading));
                proof {
                    lemma_field_parts(r);
                }
                r
            },
            Reading::Client => Field::String(json::json_string(v)),
            _ => Field::Null,
        },
        Json::Object(_) => match reading {
            Reading::Nested => Field::Json(v.copy()),
            Reading::Client => Field::String(json::json_string(v)),
            _ => Field::Null,
        },
    }
}

// ---------------------------------------------------------------------------
// Fields to JSON
// ---------------------------------------------------------------------------

/// Which fields keep their type in JSON; the others become their text.
#[derive(Debug, Clone, Copy, PartialEq, Eq, Structural)]
pub enum Writing {
    /// All that JSON has a form for.
    Full,
    /// Booleans and 64-bit numbers.
    Plain,
    /// These and 32-bit numbers.
    Narrow,
}

/// A field as JSON.
pub open spec fn json_for(f: FieldV, writing: Writing) -> JsonV
    decreases f,
{
    match f {
        FieldV::Null => JsonV::Null,
        FieldV::Bool(b) => JsonV::Bool(b),
        FieldV::Int64(v) => JsonV::Int(v as int),
        FieldV::String(s) => JsonV::Str(s),
        FieldV::Int32(v) => if writing is Plain { JsonV::Str(shown(f)) } else { JsonV::Int(v as int) },
        FieldV::UInt64(v) => if writing is Full { JsonV::Int(v as int) } else { JsonV::Str(shown(f)) },
        FieldV::Float64(t) => if writing is Full { float_json(t) } else { JsonV::Str(shown(f)) },
        FieldV::Json(j) => if writing is Full { j } else { JsonV::Str(shown(f)) },
        FieldV::Array(v) => if writing is Full { JsonV::Array(jsons_for(v, writing)) } else { JsonV::Str(shown(f)) },
        _ => JsonV::Str(shown(f)),
    }
}

/// Fields as JSON.
pub open spec fn jsons_for(v: Seq<FieldV>, writing: Writing) -> Seq<JsonV>
    decreases v,
{
    if v.len() == 0 {
        Seq::empty()
    } else {
        jsons_for(v.drop_last(), writing).push(json_for(v.last(), writing))
    }
}

fn fields_to_json(v: &Vec<Field>, writing: Writing) -> (r: Vec<Json>)
    ensures
        json::items_view(r@) == jsons_for(fields_view(v@), writing),
    decreases v,
{
    let ghost fv = fields_view(v@);
    let mut out: Vec<Json> = Vec::new();
    let mut i: usize = 0;
    proof {
        assert(fv.take(0) =~= Seq::empty());
        assert(json::items_view(out@) =~= Seq::empty());
    }
    while i < v.len()
        invariant
            i <= v@.len(),
            fv == fields_view(v@),
            json::items_view(out@) == jsons_for(fv.take(i as int), writing),
        decreases v@.len() - i,
    {
        proof {
            assert(fv.take(i + 1).drop_last() =~= fv.take(i as int));
            assert(fv.take(i + 1).last() == v@[i as int]@);
        }
        let ghost prev = out@;
        let j = field_to_json(&v[i], writing);
        let ghost jv = j@;
        out.push(j);
        assert(json::items_view(out@) =~= json::items_view(prev).push(jv));
        i += 1;
    }
    assert(fv.take(fv.len() as int) =~= fv);
    out
}

/// A field as JSON.
pub fn field_to_json(f: &Field, writing: Writing) -> (r: Json)
    ensures
        r@ == json_for(f@, writing),
    decreases f,
{
    proof {
        lemma_field_parts(*f);
    }
    match f {
        Field::Null => Json::Null,
        Field::Bool(b) => Json::Bool(*b),
        Field::Int64(v) => Json::Int(*v),
        Field::String(s) => Json::Str(s.clone()),
        Field::Int32(v) => if writing == Writing::Plain { Json::Str(f.show()) } else { Json::Int(*v as i64) },
        Field::UInt64(v) => if writing == Writing::Full { Json::UInt(*v) } else { Json::Str(f.show()) },
        Field::Float64(t) => if writing == Writing::Full { float_to_json(t.as_str()) } else { Json::Str(f.show()) },
        Field::Json(j) => if writing == Writing::Full { j.copy() } else { Json::Str(f.show()) },
        Field::Array(v) => if writing == Writing::Full {
            let r = Json::Array(fields_to_json(v, writing));
            proof {
                json::lemma_json_parts(r);
            }
            r
        } else {
            Json::Str(f.show())
        },
        _ => Json::Str(f.show()),
    }
}

// ---------------------------------------------------------------------------
// Rows
// ---------------------------------------------------------------------------

/// The row whose fields are the members of an object that the columns name; a
/// member that is missing leaves its field empty.
pub open spec fn row_of_members(
    kind: RowKind,
    columns: Seq<ColumnV>,
    o: Seq<(Seq<char>, JsonV)>,
    reading: Reading,
) -> RowV {
    RowV {
        kind,
        fields: columns.map_values(|c: ColumnV| field_or_null(member(o, c.name), reading)),
        origin: None,
    }
}

/// The row of an object's members.
pub fn read_row(kind: RowKind, schema: &TableSchema, members: &Vec<(String, Json)>, reading: Reading) -> (r: Row)
    ensures
        r@ == row_of_members(kind, schema@.columns, json::members_view(members@), reading),
{
    let ghost o = json::members_view(members@);
    let mut fields: Vec<Field> = Vec::new();
    let mut i: usize = 0;
    while i < schema.columns.len()
        invariant
            i <= schema.columns@.len(),
            o == json::members_view(members@),
            fields@.len() == i,
            forall|k: int|
                0 <= k < i ==> #[trigger] fields@[k]@ == field_or_null(member(o, schema.columns@[k].name@), reading),
        decreases schema.columns@.len() - i,
    {
        let f = match json::find(members, schema.columns[i].name.as_str()) {
            Some(v) => json_to_field(v, reading),
            None => Field::Null,
        };
        fields.push(f);
        i += 1;
    }
    let r = Row { kind, fields, origin_table: None };
    assert(r@.fields =~= row_of_members(kind, schema@.columns, o, reading).fields);
    r
}

/// The object of a row's first fields, each under the name of its column.
pub open spec fn members_for(columns: Seq<ColumnV>, fields: Seq<FieldV>, n: nat, writing: Writing) -> Seq<
    (Seq<char>, JsonV),
>
    decreases n,
{
    if n == 0 {
        Seq::empty()
    } else {
        with_member(
            members_for(columns, fields, (n - 1) as nat, writing),
            columns[n - 1].name,
            json_for(fields[n - 1], writing),
        )
    }
}

/// The number of columns that a row has a field for.
pub open spec fn covered(columns: Seq<ColumnV>, fields: Seq<FieldV>) -> nat {
    if columns.len() < fields.len() { columns.len() } else { fields.len() }
}

/// The object of a row. A column that the row has no field for is left out.
pub open spec fn object_for(columns: Seq<ColumnV>, fields: Seq<FieldV>, writing: Writing) -> Seq<(Seq<char>, JsonV)> {
    members_for(columns, fields, covered(columns, fields), writing)
}

/// The object of a row.
pub fn write_row(schema: &TableSchema, row: &Row, writing: Writing) -> (r: Vec<(String, Json)>)
    ensures
        json::members_view(r@) == object_for(schema@.columns, row@.fields, writing),
{
    let ghost c = schema@.columns;
    let ghost f = row@.fields;
    let mut out: Vec<(String, Json)> = Vec::new();
    let n: usize = if schema.columns.len() < row.fields.len() { schema.columns.len() } else { row.fields.len() };
    let mut i: usize = 0;
    assert(json::members_view(out@) =~= Seq::empty());
    while i < n
        invariant
            i <= n,
            n <= schema.columns@.len(),
            n <= row.fields@.len(),
            c == schema@.columns,
            f == row@.fields,
            json::members_view(out@) == members_for(c, f, i as nat, writing),
        decreases n - i,
    {
        proof {
            assert(c[i as int].name == schema.columns@[i as int].name@);
            assert(f[i as int] == row.fields@[i as int]@);
        }
        let v = field_to_json(&row.fields[i], writing);
        json::put(&mut out, schema.columns[i].name.as_str(), v);
        i += 1;
    }
    out
}

// ---------------------------------------------------------------------------
// Round trips
// ---------------------------------------------------------------------------

/// Whether a field is read back as it was written, however JSON is written and read.
pub open spec fn is_plain(f: FieldV) -> bool {
    f is Null || f is Bool || f is Int64 || f is String
}

/// Whether a field is read back as it was written: the plain ones; with the widest
/// writing also unsigned numbers above the signed range, and, where nested values are
/// read, objects and lists of fields that are read back.
pub open spec fn survives(f: FieldV, reading: Reading, writing: Writing) -> bool
    decreases f,
{
    ||| is_plain(f)
    ||| writing is Full && match f {
        FieldV::UInt64(v) => v > i64::MAX && !(reading is Client),
        FieldV::Json(j) => reading is Nested && j is Object,
        FieldV::Array(v) => reading is Nested && forall|i: int|
            0 <= i < v.len() ==> survives(#[trigger] v[i], reading, writing),
        _ => false,
    }
}

/// A field that survives is read back as it was written.
pub proof fn law_field_round_trip(f: FieldV, reading: Reading, writing: Writing)
    requires
        survives(f, reading, writing),
    ensures
        field_of(json_for(f, writing), reading) == f,
    decreases f, 0nat,
{
    if let FieldV::Array(v) = f {
        lemma_surviving_list(v, v.len(), reading, writing);
        assert(v.take(v.len() as int) =~= v);
    }
}

proof fn lemma_surviving_list(v: Seq<FieldV>, n: nat, reading: Reading, writing: Writing)
    requires
        n <= v.len(),
        forall|i: int| 0 <= i < v.len() ==> survives(#[trigger] v[i], reading, writing),
    ensures
        fields_of(jsons_for(v.take(n as int), writing), reading) == v.take(n as int),
    decreases v, n,
{
    let t = v.take(n as int);
    if n > 0 {
        lemma_surviving_list(v, (n - 1) as nat, reading, writing);
        assert(t.drop_last() =~= v.take(n - 1));
        assert(t.last() == v[n - 1]);
        law_field_round_trip(v[n - 1], reading, writing);
        let j = jsons_for(t, writing);
        assert(j.drop_last() =~= jsons_for(t.drop_last(), writing));
        assert(fields_of(j, reading) =~= t.drop_last().push(t.last()));
        assert(t.drop_last().push(t.last()) =~= t);
    } else {
        assert(t =~= Seq::empty());
    }
}

proof fn lemma_members_for(columns: Seq<ColumnV>, fields: Seq<FieldV>, n: nat, writing: Writing)
    requires
        crate::row::distinct_columns(columns),
        n <= columns.len(),
        n <= fields.len(),
    ensures
        json::sorted_members(members_for(columns, fields, n, writing)),
        forall|i: int|
            0 <= i < n ==> member(members_for(columns, fields, n, writing), (#[trigger] columns[i]).name) == Some(
                json_for(fields[i], writing),
            ),
        forall|k: Seq<char>|
            (forall|i: int| 0 <= i < n ==> (#[trigger] columns[i]).name != k) ==> #[trigger] member(
                members_for(columns, fields, n, writing),
                k,
            ) is None,
    decreases n,
{
    if n > 0 {
        let m = (n - 1) as nat;
        lemma_members_for(columns, fields, m, writing);
        let h = members_for(columns, fields, m, writing);
        json::lemma_with_member(h, columns[m as int].name, json_for(fields[m as int], writing));
        let r = members_for(columns, fields, n, writing);
        assert forall|i: int| 0 <= i < n implies member(r, (#[trigger] columns[i]).name) == Some(
            json_for(fields[i], writing),
        ) by {
            if i < m {
                assert(columns[i].name != columns[m as int].name);
            }
        }
        assert forall|k: Seq<char>|
            (forall|i: int| 0 <= i < n ==> (#[trigger] columns[i]).name != k) implies #[trigger] member(r, k) is None by {
            assert(columns[m as int].name != k);
            assert(member(h, k) is None);
        }
    }
}

/// A row whose fields survive is read back from its object as it was written, where
/// the columns have different names and the row has a field for each.
pub proof fn law_row_round_trip(kind: RowKind, columns: Seq<ColumnV>, fields: Seq<FieldV>, reading: Reading, writing: Writing)
    requires
        crate::row::distinct_columns(columns),
        fields.len() == columns.len(),
        forall|i: int| 0 <= i < fields.len() ==> survives(#[trigger] fields[i], reading, writing),
    ensures
        row_of_members(kind, columns, object_for(columns, fields, writing), reading) == (RowV {
            kind,
            fields,
            origin: None,
        }),
{
    lemma_members_for(columns, fields, columns.len(), writing);
    let r = row_of_members(kind, columns, object_for(columns, fields, writing), reading);
    assert forall|i: int| 0 <= i < fields.len() implies #[trigger] r.fields[i] == fields[i] by {
        assert(member(object_for(columns, fields, writing), columns[i].name) == Some(json_for(fields[i], writing)));
        law_field_round_trip(fields[i], reading, writing);
    }
    assert(r.fields =~= fields);
}

} // verus!
