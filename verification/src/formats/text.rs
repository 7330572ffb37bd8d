//! Delimited text: the fields of a row with a bar between them.

use vstd::prelude::*;

use crate::formats::error::{FormatError, FormatErrorV};
use crate::row::{
    fields_view, join, joined, shown, ColumnType, ColumnV, Field, FieldV, Row, RowKind,
    RowV, SchemaV, TableSchema,
};
use crate::text;
use crate::text::{being, split_text, trim_end_by};

verus! {

/// What stands between two fields.
pub const DEFAULT_DELIMITER: &'static str = "|";

/// The one character of the delimiter.
pub const BAR: char = '|';

/// The text of the double-precision number that the standard library reads from a
/// text, if it reads one.
pub uninterp spec fn float_of_text(s: Seq<char>) -> Option<Seq<char>>;

/// Reads a double-precision number with `str::parse` and writes it as the standard
/// library does; `serde_json::Number::from_f64`, which takes nothing else, gives
/// the number its type. The text is a function of the text that is read; nothing
/// else is claimed of it.
#[verifier::external_body]
pub(crate) fn parse_float(s: &str) -> (r: Option<String>)
    ensures
        match r {
            Some(t) => float_of_text(s@) == Some(t@),
            None => float_of_text(s@) is None,
        },
{
    let number = s.parse().ok()?;
    let _ = serde_json::Number::from_f64(number);
    Some(number.to_string())
}

/// The field that a text stands for in a column, given the text in lower case.
pub open spec fn field_of_text(s: Seq<char>, lowered: Seq<char>, t: ColumnType) -> Result<FieldV, FormatErrorV> {
    match t {
        ColumnType::Int32 => match text::signed_number(s, i32::MIN as int, i32::MAX as int) {
            Some(v) => Ok(FieldV::Int32(v as i32)),
            None => Err(FormatErrorV::NotANumber(s)),
        },
        ColumnType::Int64 => match text::signed_number(s, i64::MIN as int, i64::MAX as int) {
            Some(v) => Ok(FieldV::Int64(v as i64)),
            None => Err(FormatErrorV::NotANumber(s)),
        },
        ColumnType::Float64 => match float_of_text(s) {
            Some(v) => Ok(FieldV::Float64(v)),
            None => Err(FormatErrorV::NotANumber(s)),
        },
        ColumnType::Bool => Ok(
            if lowered == "true"@ || lowered == "1"@ || lowered == "yes"@ {
                FieldV::Bool(true)
            } else if lowered == "false"@ || lowered == "0"@ || lowered == "no"@ {
                FieldV::Bool(false)
            } else {
                FieldV::String(s)
            },
        ),
        _ => Ok(FieldV::String(s)),
    }
}

/// The fields of the first `n` columns; a part that is missing or empty leaves its
/// field empty.
pub open spec fn fields_upto(columns: Seq<ColumnV>, parts: Seq<Seq<char>>, n: nat) -> Result<Seq<FieldV>, FormatErrorV>
    decreases n,
{
    if n == 0 {
        Ok(Seq::empty())
    } else {
        let i = n - 1;
        match fields_upto(columns, parts, i as nat) {
            Err(e) => Err(e),
            Ok(h) => if i < parts.len() && parts[i].len() > 0 {
                match field_of_text(parts[i], text::lower_text(parts[i]), columns[i].column_type) {
                    Ok(f) => Ok(h.push(f)),
                    Err(e) => Err(e),
                }
            } else {
                Ok(h.push(FieldV::Null))
            },
        }
    }
}

/// A line without its end.
pub open spec fn line_of(s: Seq<char>) -> Seq<char> {
    trim_end_by(trim_end_by(s, being('\n')), being('\r'))
}

/// The row of a line.
pub open spec fn decoded(s: Seq<char>, schema: SchemaV) -> Result<RowV, FormatErrorV> {
    match fields_upto(schema.columns, split_text(line_of(s), BAR), schema.columns.len()) {
        Ok(fields) => Ok(RowV { kind: RowKind::Insert, fields, origin: None }),
        Err(e) => Err(e),
    }
}

/// A field in a line: an empty one is empty.
pub open spec fn part_for(f: FieldV) -> Seq<char> {
    match f {
        FieldV::Null => Seq::empty(),
        _ => shown(f),
    }
}

/// The parts of a line; a column that the row has no field for is empty.
pub open spec fn parts_for(n: nat, fields: Seq<FieldV>) -> Seq<Seq<char>> {
    Seq::new(n, |i: int| if i < fields.len() { part_for(fields[i]) } else { Seq::empty() })
}

/// The line of a row.
pub open spec fn encoded(schema: SchemaV, row: RowV) -> Seq<char> {
    joined(parts_for(schema.columns.len(), row.fields), DEFAULT_DELIMITER@)
}

fn parse_text(s: &String, t: &ColumnType) -> (r: Result<Field, FormatError>)
    ensures
        match (r, field_of_text(s@, text::lower_text(s@), *t)) {
            (Ok(f), Ok(v)) => f@ == v,
            (Err(e), Err(v)) => e@ == v,
            _ => false,
        },
{
    match t {
        ColumnType::Int32 => match text::parse_i32(s.as_str()) {
            Some(v) => Ok(Field::Int32(v)),
            None => Err(FormatError::NotANumber(s.clone())),
        },
        ColumnType::Int64 => match text::parse_i64(s.as_str()) {
            Some(v) => Ok(Field::Int64(v)),
            None => Err(FormatError::NotANumber(s.clone())),
        },
        ColumnType::Float64 => match parse_float(s.as_str()) {
            Some(v) => Ok(Field::Float64(v)),
            None => Err(FormatError::NotANumber(s.clone())),
        },
        ColumnType::Bool => {
            let lowered = text::to_lower(s.as_str());
            let l = lowered.as_str();
            if text::same(l, "true") || text::same(l, "1") || text::same(l, "yes") {
                Ok(Field::Bool(true))
            } else if text::same(l, "false") || text::same(l, "0") || text::same(l, "no") {
                Ok(Field::Bool(false))
            } else {
                Ok(Field::String(s.clone()))
            }
        },
        _ => Ok(Field::String(s.clone())),
    }
}

/// The row of a line.
pub fn read_line(s: &str, schema: &TableSchema) -> (r: Result<Row, FormatError>)
    ensures
        match (r, decoded(s@, schema@)) {
            (Ok(row), Ok(w)) => row@ == w,
            (Err(e), Err(w)) => e@ == w,
            _ => false,
        },
{
    let a = text::trim_end_of(s, '\n');
    let line = text::trim_end_of(a.as_str(), '\r');
    let parts = text::split(line.as_str(), BAR);
    let ghost pv = text::views(parts@);
    let ghost c = schema@.columns;
    let mut fields: Vec<Field> = Vec::new();
    let mut i: usize = 0;
    assert(fields_view(fields@) =~= Seq::empty());
    while i < schema.columns.len()
        invariant
            i <= schema.columns@.len(),
            c == schema@.columns,
            pv == text::views(parts@),
            pv == split_text(line_of(s@), BAR),
            fields_upto(c, pv, i as nat) == Ok::<Seq<FieldV>, FormatErrorV>(fields_view(fields@)),
        decreases schema.columns@.len() - i,
    {
        let ghost prev = fields@;
        assert(c[i as int] == schema.columns@[i as int]@);
        if i < parts.len() && !parts[i].as_str().is_empty() {
            assert(pv[i as int] == parts@[i as int]@);
            match parse_text(&parts[i], &schema.columns[i].column_type) {
                Ok(f) => {
                    let ghost fv = f@;
                    fields.push(f);
                    assert(fields_view(fields@) =~= fields_view(prev).push(fv));
                },
                Err(e) => {
                    proof {
                        lemma_error_stays(c, pv, i as nat + 1, c.len());
                    }
                    return Err(e);
                },
            }
        } else {
            fields.push(Field::Null);
            assert(fields_view(fields@) =~= fields_view(prev).push(FieldV::Null));
        }
        i += 1;
    }
    Ok(Row { kind: RowKind::Insert, fields, origin_table: None })
}

proof fn lemma_error_stays(columns: Seq<ColumnV>, parts: Seq<Seq<char>>, i: nat, n: nat)
    requires
        i <= n,
        fields_upto(columns, parts, i) is Err,
    ensures
        fields_upto(columns, parts, n) == fields_upto(columns, parts, i),
    decreases n - i,
{
    if i < n {
        lemma_error_stays(columns, parts, i, (n - 1) as nat);
    }
}

/// The row of a message, which is UTF-8.
pub fn deserialize(bytes: &[u8], schema: &TableSchema) -> (r: Result<Row, FormatError>)
    ensures
        if vstd::utf8::valid_utf8(bytes@) {
            match (r, decoded(vstd::utf8::decode_utf8(bytes@), schema@)) {
                (Ok(row), Ok(w)) => row@ == w,
                (Err(e), Err(w)) => e@ == w,
                _ => false,
            }
        } else {
            r is Err && r->Err_0@ == FormatErrorV::NotUtf8
        },
{
    match text::utf8_text(bytes) {
        Some(s) => read_line(s.as_str(), schema),
        None => Err(FormatError::NotUtf8),
    }
}

/// The line of a row.
pub fn write_line(schema: &TableSchema, row: &Row) -> (r: String)
    ensures
        r@ == encoded(schema@, row@),
{
    let ghost n = schema@.columns.len();
    let ghost fv = row@.fields;
    let mut parts: Vec<String> = Vec::new();
    let mut i: usize = 0;
    while i < schema.columns.len()
        invariant
            i <= schema.columns@.len(),
            fv == row@.fields,
            parts@.len() == i,
            forall|k: int|
                0 <= k < i ==> (#[trigger] parts@[k])@ == if k < fv.len() { part_for(fv[k]) } else { Seq::empty() },
        decreases schema.columns@.len() - i,
    {
        let part = if i < row.fields.len() {
            assert(fv[i as int] == row.fields@[i as int]@);
            match &row.fields[i] {
                Field::Null => String::new(),
                f => f.show(),
            }
        } else {
            String::new()
        };
        parts.push(part);
        i += 1;
    }
    assert(text::views(parts@) =~= parts_for(n, fv));
    join(&parts, DEFAULT_DELIMITER)
}

/// The message of a row.
pub fn serialize(schema: &TableSchema, row: &Row) -> (r: Result<Vec<u8>, FormatError>)
    ensures
        r is Ok,
        r->Ok_0@ == vstd::utf8::encode_utf8(encoded(schema@, row@)),
{
    let line = write_line(schema, row);
    Ok(crate::checkpoint_store::bytes_of(line.as_str().as_bytes()))
}

// ---------------------------------------------------------------------------
// Round trip
// ---------------------------------------------------------------------------

/// Whether a text holds no delimiter.
pub open spec fn unbarred(s: Seq<char>) -> bool {
    forall|i: int| 0 <= i < s.len() ==> #[trigger] s[i] != BAR
}

proof fn lemma_split_tail(head: Seq<char>, tail: Seq<char>)
    requires
        unbarred(tail),
    ensures
        split_text(head + tail, BAR) == split_text(head, BAR).drop_last().push(
            split_text(head, BAR).last() + tail,
        ),
    decreases tail.len(),
{
    let h = split_text(head, BAR);
    text::lemma_split_nonempty(head, BAR);
    if tail.len() == 0 {
        assert(head + tail =~= head);
        assert(h.last() + tail =~= h.last());
        assert(h.drop_last().push(h.last()) =~= h);
    } else {
        let t = tail.drop_last();
        assert(unbarred(t)) by {
            assert forall|i: int| 0 <= i < t.len() implies #[trigger] t[i] != BAR by {
                assert(t[i] == tail[i]);
            }
        }
        lemma_split_tail(head, t);
        assert((head + tail).drop_last() =~= head + t);
        assert((head + tail).last() == tail[tail.len() - 1]);
        let g = split_text(head + t, BAR);
        assert(g.drop_last() =~= h.drop_last());
        assert((h.last() + t).push(tail.last()) =~= h.last() + tail);
    }
}

pub(crate) proof fn lemma_split_joined(parts: Seq<Seq<char>>)
    requires
        parts.len() > 0,
        forall|i: int| 0 <= i < parts.len() ==> unbarred(#[trigger] parts[i]),
    ensures
        split_text(joined(parts, DEFAULT_DELIMITER@), BAR) == parts,
    decreases parts.len(),
{
    reveal_strlit("|");
    let e = Seq::<char>::empty();
    if parts.len() == 1 {
        lemma_split_tail(e, parts[0]);
        assert(e + parts[0] =~= parts[0]);
        assert(split_text(parts[0], BAR) =~= parts);
    } else {
        let d = parts.drop_last();
        assert forall|i: int| 0 <= i < d.len() implies unbarred(#[trigger] d[i]) by {
            assert(d[i] == parts[i]);
        }
        lemma_split_joined(d);
        let h = joined(d, DEFAULT_DELIMITER@);
        let b = h + DEFAULT_DELIMITER@;
        assert(b.drop_last() =~= h);
        assert(b.last() == BAR);
        let s = split_text(b, BAR);
        assert(s == d.push(e));
        assert(s.drop_last() =~= d);
        assert(s.last() == e);
        lemma_split_tail(b, parts.last());
        assert(e + parts.last() =~= parts.last());
        assert(d.push(parts.last()) =~= parts);
    }
}

/// Whether a text stays one in a column.
pub open spec fn stays_text(s: Seq<char>, t: ColumnType) -> bool {
    match t {
        ColumnType::Int32 | ColumnType::Int64 | ColumnType::Float64 => false,
        ColumnType::Bool => {
            let l = text::lower_text(s);
            l != "true"@ && l != "1"@ && l != "yes"@ && l != "false"@ && l != "0"@ && l != "no"@
        },
        _ => true,
    }
}

/// Whether a field of a column is read back from a line as it was written: nothing; a
/// boolean, a 32-bit or a 64-bit number in a column of its type; or a text that is
/// neither empty nor holds the delimiter, in a column where it stays one.
pub open spec fn survives(f: FieldV, t: ColumnType) -> bool {
    match f {
        FieldV::Null => true,
        FieldV::Bool(_) => t is Bool,
        FieldV::Int32(_) => t is Int32,
        FieldV::Int64(_) => t is Int64,
        FieldV::String(s) => stays_text(s, t) && s.len() > 0 && unbarred(s),
        _ => false,
    }
}

proof fn lemma_number_part(v: int)
    ensures
        unbarred(text::signed_text(v)),
        text::signed_text(v).len() > 0,
{
    let n = if v < 0 { -v } else { v };
    text::lemma_decimal_text(n as nat);
    let d = text::decimal_text(n as nat);
    let s = text::signed_text(v);
    assert forall|i: int| 0 <= i < s.len() implies #[trigger] s[i] != BAR by {
        let c = if v < 0 && i > 0 { d[i - 1] } else if v < 0 { '-' } else { d[i] };
        assert(s[i] == c);
        if c != '-' {
            assert(text::is_digit(c));
        }
    }
}

proof fn lemma_part(f: FieldV, t: ColumnType)
    requires
        survives(f, t),
    ensures
        unbarred(part_for(f)),
        f is Null ==> part_for(f).len() == 0,
        !(f is Null) ==> part_for(f).len() > 0 && field_of_text(part_for(f), text::lower_text(part_for(f)), t) == Ok::<
            FieldV,
            FormatErrorV,
        >(f),
{
    match f {
        FieldV::Int32(v) => {
            text::law_signed_round_trip(v as int, i32::MIN as int, i32::MAX as int);
            lemma_number_part(v as int);
        },
        FieldV::Int64(v) => {
            text::law_signed_round_trip(v as int, i64::MIN as int, i64::MAX as int);
            lemma_number_part(v as int);
        },
        FieldV::Bool(_) => {
            reveal_strlit("true");
            reveal_strlit("false");
            text::lemma_bool_text();
            assert("false"@ != "true"@ && "false"@ != "1"@ && "false"@ != "yes"@) by {
                reveal_strlit("1");
                reveal_strlit("yes");
                assert("false"@[0] == 'f' && "true"@[0] == 't' && "1"@[0] == '1' && "yes"@[0] == 'y');
            }
        },
        _ => {},
    }
}

proof fn lemma_fields_upto(columns: Seq<ColumnV>, fields: Seq<FieldV>, n: nat)
    requires
        fields.len() == columns.len(),
        n <= columns.len(),
        forall|i: int| 0 <= i < fields.len() ==> survives(#[trigger] fields[i], columns[i].column_type),
    ensures
        fields_upto(columns, parts_for(columns.len(), fields), n) == Ok::<Seq<FieldV>, FormatErrorV>(
            fields.take(n as int),
        ),
    decreases n,
{
    let parts = parts_for(columns.len(), fields);
    if n == 0 {
        assert(fields.take(0) =~= Seq::empty());
    } else {
        let i = n - 1;
        lemma_fields_upto(columns, fields, i as nat);
        assert(survives(fields[i], columns[i].column_type));
        lemma_part(fields[i], columns[i].column_type);
        assert(fields.take(n as int) =~= fields.take(i).push(fields[i]));
    }
}

/// A row whose fields survive is read back from its line as it was written, as an
/// inserted one, where the line does not end with a line break of its own.
pub proof fn law_round_trip(schema: SchemaV, row: RowV)
    requires
        row.fields.len() == schema.columns.len(),
        forall|i: int| 0 <= i < row.fields.len() ==> survives(#[trigger] row.fields[i], schema.columns[i].column_type),
    ensures
        line_of(encoded(schema, row)) == encoded(schema, row) ==> decoded(encoded(schema, row), schema) == Ok::<RowV, FormatErrorV>(
            RowV { kind: RowKind::Insert, fields: row.fields, origin: None },
        ),
        vstd::utf8::valid_utf8(vstd::utf8::encode_utf8(encoded(schema, row))),
        vstd::utf8::decode_utf8(vstd::utf8::encode_utf8(encoded(schema, row))) == encoded(schema, row),
{
    let parts = parts_for(schema.columns.len(), row.fields);
    assert forall|i: int| 0 <= i < parts.len() implies unbarred(#[trigger] parts[i]) by {
        assert(survives(row.fields[i], schema.columns[i].column_type));
        lemma_part(row.fields[i], schema.columns[i].column_type);
    }
    if parts.len() > 0 {
        lemma_split_joined(parts);
    }
    lemma_fields_upto(schema.columns, row.fields, schema.columns.len());
    assert(row.fields.take(row.fields.len() as int) =~= row.fields);
    vstd::utf8::encode_utf8_valid_utf8(encoded(schema, row));
    vstd::utf8::encode_utf8_decode_utf8(encoded(schema, row));
}

} // verus!
